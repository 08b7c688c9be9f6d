//! The decisions of a project: which are listed, what may be changed, and how far the sessions
//! bear them out.
use vstd::prelude::*;

use crate::commands::helpers;
use crate::commands::helpers::{
    affirms, calls_tool, entry_text, has_options, has_short_id, id_head, on_main_thread, text_view,
};
use crate::error::{invalid, invalid_argument, ErrorView, SnatchError};
use crate::json;
use crate::json::{
    fields_view, given_number, given_text, number_json, some_texts, time_json, Json, JsonView,
};
use crate::model::LogEntry;
use crate::names;
use crate::order;
use crate::text;
use crate::text::{byte_len, decimal, has, joined, lowercase, split_of, trimmed, views, words_of};

verus! {

// ---------------------------------------------------------------------------
// Decisions
// ---------------------------------------------------------------------------

/// Where a decision stands.
#[derive(Debug, Clone, Copy, PartialEq, Eq, Structural)]
pub enum DecisionStatus {
    /// It was proposed.
    Proposed,
    /// It was confirmed.
    Confirmed,
    /// Another took its place.
    Superseded,
    /// It was given up.
    Abandoned,
}

/// A decision.
#[derive(Debug, Clone, PartialEq, Eq)]
pub struct Decision {
    /// Its number.
    pub id: u64,
    /// What was decided.
    pub title: String,
    /// What was decided, at length.
    pub description: Option<String>,
    /// Where it stands.
    pub status: DecisionStatus,
    /// Where it stands, as it is shown.
    pub status_shown: String,
    /// How far it is relied on, as a JSON number.
    pub confidence: String,
    /// When it was taken.
    pub created_at: i128,
    /// When it was last changed.
    pub updated_at: i128,
    /// How far it is relied on, in percent, as it is shown.
    pub percent: String,
    /// Whether it is not wholly relied on.
    pub below_one: bool,
    /// The session in which it was taken.
    pub session_id: Option<String>,
    /// The decision that took its place.
    pub superseded_by: Option<u64>,
    /// Its tags.
    pub tags: Vec<String>,
    /// Other sessions that it has to do with.
    pub references: Vec<String>,
}

/// The sign of a status.
pub open spec fn marker(status: DecisionStatus) -> Seq<char> {
    match status {
        DecisionStatus::Proposed => "?"@,
        DecisionStatus::Confirmed => "!"@,
        DecisionStatus::Superseded => "~"@,
        DecisionStatus::Abandoned => "-"@,
    }
}

fn write_marker(status: DecisionStatus) -> (r: String)
    ensures
        r@ == marker(status),
{
    match status {
        DecisionStatus::Proposed => "?".to_owned(),
        DecisionStatus::Confirmed => "!".to_owned(),
        DecisionStatus::Superseded => "~".to_owned(),
        DecisionStatus::Abandoned => "-".to_owned(),
    }
}

/// A status that was asked for: the word, and what it stands for.
#[derive(Debug, Clone, PartialEq, Eq)]
pub struct StatusWord {
    /// The word.
    pub word: String,
    /// What it stands for; nothing where it is not known.
    pub status: Option<DecisionStatus>,
}

/// The error for a word that stands for no status.
pub open spec fn unknown_status(word: Seq<char>) -> ErrorView {
    invalid(
        "status"@,
        "Invalid status '"@ + word + "'. Use: proposed, confirmed, superseded, abandoned"@,
    )
}

fn read_status(given: &Option<StatusWord>) -> (r: Result<Option<DecisionStatus>, SnatchError>)
    ensures
        match *given {
            Some(w) => match w.status {
                Some(s) => r == Ok::<Option<DecisionStatus>, SnatchError>(Some(s)),
                None => r matches Err(e) && e@ == unknown_status(w.word@),
            },
            None => r == Ok::<Option<DecisionStatus>, SnatchError>(None),
        },
{
    match given {
        Some(w) => match w.status {
            Some(s) => Ok(Some(s)),
            None => Err(
                invalid_argument(
                    "status",
                    text::cat3(
                        "Invalid status '",
                        w.word.as_str(),
                        "'. Use: proposed, confirmed, superseded, abandoned",
                    ),
                ),
            ),
        },
        None => Ok(None),
    }
}

// ---------------------------------------------------------------------------
// Tags
// ---------------------------------------------------------------------------

/// The parts of a text between commas, without white space around them.
pub open spec fn parts_of(t: Seq<char>) -> Seq<Seq<char>> {
    let parts = split_of(t, ',');
    Seq::new(parts.len(), |i: int| trimmed(parts[i]))
}

/// The parts of all texts, one after another.
pub open spec fn all_parts(list: Seq<Seq<char>>) -> Seq<Seq<char>>
    decreases list.len(),
{
    if list.len() == 0 {
        Seq::empty()
    } else {
        all_parts(list.drop_last()) + parts_of(list.last())
    }
}

/// Not empty.
pub open spec fn not_empty() -> spec_fn(Seq<char>) -> bool {
    |s: Seq<char>| s.len() > 0
}

/// The tags that some texts name: their parts that are not empty.
pub open spec fn tags_in(list: Seq<Seq<char>>) -> Seq<Seq<char>> {
    all_parts(list).filter(not_empty())
}

fn parts(list: &Vec<String>) -> (r: Vec<String>)
    ensures
        views(r@) == all_parts(views(list@)),
{
    let mut out: Vec<String> = Vec::new();
    let mut i: usize = 0;
    proof {
        assert(views(list@).take(0) =~= Seq::empty());
        assert(views(out@) =~= Seq::empty());
    }
    while i < list.len()
        invariant
            i <= list@.len(),
            views(out@) == all_parts(views(list@).take(i as int)),
        decreases list@.len() - i,
    {
        let pieces = text::split(list[i].as_str(), ',');
        let bare = |p: &String| -> (o: String)
            ensures
                o@ == trimmed(p@),
            { text::trim(p.as_str()) };
        let ghost g = |p: String| trimmed(p@);
        text::say_each(&mut out, &pieces, bare, Ghost(g));
        proof {
            let next = views(list@).take(i + 1);
            assert(next.drop_last() =~= views(list@).take(i as int));
            assert(next.last() == list@[i as int]@);
            assert(pieces@.map_values(g) =~= parts_of(list@[i as int]@)) by {
                assert(views(pieces@) == split_of(list@[i as int]@, ','));
                assert forall|k: int| 0 <= k < pieces@.len() implies #[trigger] trimmed(
                    pieces@[k]@,
                ) == parts_of(list@[i as int]@)[k] by {
                    assert(views(pieces@)[k] == pieces@[k]@);
                }
            }
            assert(views(out@) =~= all_parts(next));
        }
        i = i + 1;
    }
    proof {
        assert(views(list@).take(i as int) =~= views(list@));
    }
    out
}

/// The tags that some texts name: what stands between their commas, without white space around
/// it, as far as that is not empty.
pub fn split_tags(list: &Vec<String>) -> (r: Vec<String>)
    ensures
        views(r@) == tags_in(views(list@)),
{
    let all = parts(list);
    let ghost before = all@;
    let ghost p = |s: String| s@.len() > 0;
    let full = |s: &String| -> (o: bool)
        ensures
            o == p(*s),
        { s.as_str().unicode_len() > 0 };
    let kept = order::keep(all, full, Ghost(p));
    proof {
        let f = |s: String| s@;
        order::lemma_filter_map(before, f, p, not_empty());
        assert(before.map_values(f) =~= views(before));
        assert(kept@.map_values(f) =~= views(kept@));
    }
    kept
}

// ---------------------------------------------------------------------------
// What a run does
// ---------------------------------------------------------------------------

/// The arguments of the command.
#[derive(Debug, Clone, PartialEq, Eq)]
pub struct DecisionsArgs {
    /// What is to be done.
    pub operation: Option<String>,
    /// The number of a decision.
    pub id: Option<u64>,
    /// The title of a new decision.
    pub title: Option<String>,
    /// A description.
    pub description: Option<String>,
    /// A status.
    pub status: Option<StatusWord>,
    /// Whether a confidence is given.
    pub has_confidence: bool,
    /// Texts that name tags.
    pub tag: Vec<String>,
    /// Other sessions that a decision has to do with.
    pub related_sessions: Vec<String>,
    /// The number of the decision that takes the place of another.
    pub superseded_by: Option<u64>,
}

/// What is to be done with the decisions of a project.
#[derive(Debug, Clone, PartialEq, Eq)]
pub enum DecisionsPlan {
    /// List them.
    List {
        /// Only those of this status.
        status: Option<DecisionStatus>,
    },
    /// Add one.
    Add {
        /// Its title.
        title: String,
        /// Its status.
        status: Option<DecisionStatus>,
        /// Its tags.
        tags: Vec<String>,
    },
    /// Change one.
    Update {
        /// Its number.
        id: u64,
        /// Its new status.
        status: Option<DecisionStatus>,
        /// Its new tags.
        tags: Option<Vec<String>>,
        /// Whether it has to do with more sessions.
        has_related: bool,
    },
    /// Remove one.
    Remove {
        /// Its number.
        id: u64,
    },
    /// Put another in the place of one.
    Supersede {
        /// Its number.
        id: u64,
        /// The number of the other.
        by: u64,
    },
    /// See how far the sessions bear them out.
    Score,
    /// Write them all out.
    Export,
}

/// The operation: `list` where none is asked for.
pub open spec fn operation_of(args: DecisionsArgs) -> Seq<char> {
    match args.operation {
        Some(o) => o@,
        None => "list"@,
    }
}

/// The word that was given for a status stands for none.
pub open spec fn status_is_unknown(args: DecisionsArgs) -> bool {
    args.status matches Some(w) && w.status is None
}

/// The status that was given.
pub open spec fn status_given(args: DecisionsArgs) -> Option<DecisionStatus> {
    match args.status {
        Some(w) => w.status,
        None => None,
    }
}

/// Nothing is given that a decision could be changed to.
pub open spec fn nothing_to_update(args: DecisionsArgs) -> bool {
    status_given(args) is None && args.description is None && !args.has_confidence
        && args.tag@.len() == 0 && args.related_sessions@.len() == 0
}

/// What was asked for, or why it cannot be done.
pub open spec fn plans(args: DecisionsArgs, r: Result<DecisionsPlan, SnatchError>) -> bool {
    let operation = operation_of(args);
    if operation == "list"@ {
        if status_is_unknown(args) {
            r matches Err(e) && e@ == unknown_status(args.status->0.word@)
        } else {
            r matches Ok(DecisionsPlan::List { status }) && status == status_given(args)
        }
    } else if operation == "add"@ {
        if args.title is None {
            r matches Err(e) && e@ == invalid(
                "title"@,
                "--title is required for add operation"@,
            )
        } else if status_is_unknown(args) {
            r matches Err(e) && e@ == unknown_status(args.status->0.word@)
        } else {
            r matches Ok(DecisionsPlan::Add { title, status, tags }) && title@ == args.title->0@
                && status == status_given(args) && views(tags@) == tags_in(views(args.tag@))
        }
    } else if operation == "update"@ {
        if args.id is None {
            r matches Err(e) && e@ == invalid(
                "id"@,
                "--id is required for update operation"@,
            )
        } else if status_is_unknown(args) {
            r matches Err(e) && e@ == unknown_status(args.status->0.word@)
        } else if nothing_to_update(args) {
            r matches Err(e) && e@ == invalid(
                "update"@,
                "At least one of --status, --description, --confidence, --tag, or --related-session is required"@,
            )
        } else {
            r matches Ok(DecisionsPlan::Update { id, status, tags, has_related }) && Some(id)
                == args.id && status == status_given(args) && (match tags {
                Some(t) => args.tag@.len() > 0 && views(t@) == tags_in(views(args.tag@)),
                None => args.tag@.len() == 0,
            }) && has_related == (args.related_sessions@.len() > 0)
        }
    } else if operation == "remove"@ {
        if args.id is None {
            r matches Err(e) && e@ == invalid(
                "id"@,
                "--id is required for remove operation"@,
            )
        } else {
            r matches Ok(DecisionsPlan::Remove { id }) && Some(id) == args.id
        }
    } else if operation == "supersede"@ {
        if args.id is None {
            r matches Err(e) && e@ == invalid(
                "id"@,
                "--id is required for supersede operation"@,
            )
        } else if args.superseded_by is None {
            r matches Err(e) && e@ == invalid(
                "superseded-by"@,
                "--superseded-by is required for supersede operation"@,
            )
        } else {
            r matches Ok(DecisionsPlan::Supersede { id, by }) && Some(id) == args.id && Some(by)
                == args.superseded_by
        }
    } else if operation == "score"@ {
        r == Ok::<DecisionsPlan, SnatchError>(DecisionsPlan::Score)
    } else if operation == "export"@ {
        r == Ok::<DecisionsPlan, SnatchError>(DecisionsPlan::Export)
    } else if operation == "import"@ {
        r matches Err(e) && e@ == invalid(
            "operation"@,
            "Import is not yet implemented. Use 'add' to create decisions manually."@,
        )
    } else {
        r matches Err(e) && e@ == invalid(
            "operation"@,
            "Unknown operation '"@ + operation
                + "'. Use: list, add, update, remove, supersede, score, export"@,
        )
    }
}

fn missing(name: &str, reason: &str) -> (r: Result<DecisionsPlan, SnatchError>)
    ensures
        r matches Err(e) && e@ == invalid(name@, reason@),
{
    Err(invalid_argument(name, reason.to_owned()))
}

fn plan_add(args: &DecisionsArgs) -> (r: Result<DecisionsPlan, SnatchError>)
    requires
        operation_of(*args) == "add"@,
    ensures
        plans(*args, r),
{
    proof {
        reveal_strlit("list");
        reveal_strlit("add");
        assert("add"@.len() == 3 && "list"@.len() == 4);
    }
    let title: String = match &args.title {
        Some(t) => t.clone(),
        None => {
            return missing("title", "--title is required for add operation");
        },
    };
    match read_status(&args.status) {
        Ok(status) => {
            let tags = split_tags(&args.tag);
            Ok(DecisionsPlan::Add { title, status, tags })
        },
        Err(e) => Err(e),
    }
}

fn plan_update(args: &DecisionsArgs) -> (r: Result<DecisionsPlan, SnatchError>)
    requires
        operation_of(*args) == "update"@,
    ensures
        plans(*args, r),
{
    proof {
        reveal_strlit("list");
        reveal_strlit("add");
        reveal_strlit("update");
        assert("add"@.len() == 3 && "list"@.len() == 4 && "update"@.len() == 6);
    }
    let id: u64 = match args.id {
        Some(id) => id,
        None => {
            return missing("id", "--id is required for update operation");
        },
    };
    match read_status(&args.status) {
        Ok(status) => {
            let has_related: bool = args.related_sessions.len() > 0;
            if status.is_none() && args.description.is_none() && !args.has_confidence
                && args.tag.len() == 0 && !has_related {
                return missing(
                    "update",
                    "At least one of --status, --description, --confidence, --tag, or --related-session is required",
                );
            }
            let tags: Option<Vec<String>> = if args.tag.len() == 0 {
                None
            } else {
                Some(split_tags(&args.tag))
            };
            Ok(DecisionsPlan::Update { id, status, tags, has_related })
        },
        Err(e) => Err(e),
    }
}

/// What was asked for, or why it cannot be done.
pub fn run(args: &DecisionsArgs) -> (r: Result<DecisionsPlan, SnatchError>)
    ensures
        plans(*args, r),
{
    let operation: String = match &args.operation {
        Some(o) => o.clone(),
        None => "list".to_owned(),
    };
    let op: &str = operation.as_str();
    if text::same(op, "list") {
        match read_status(&args.status) {
            Ok(status) => Ok(DecisionsPlan::List { status }),
            Err(e) => Err(e),
        }
    } else if text::same(op, "add") {
        plan_add(args)
    } else if text::same(op, "update") {
        plan_update(args)
    } else if text::same(op, "remove") {
        match args.id {
            Some(id) => Ok(DecisionsPlan::Remove { id }),
            None => missing("id", "--id is required for remove operation"),
        }
    } else if text::same(op, "supersede") {
        match (args.id, args.superseded_by) {
            (Some(id), Some(by)) => Ok(DecisionsPlan::Supersede { id, by }),
            (None, _) => missing("id", "--id is required for supersede operation"),
            (Some(_), None) => missing(
                "superseded-by",
                "--superseded-by is required for supersede operation",
            ),
        }
    } else if text::same(op, "score") {
        Ok(DecisionsPlan::Score)
    } else if text::same(op, "export") {
        Ok(DecisionsPlan::Export)
    } else if text::same(op, "import") {
        missing(
            "operation",
            "Import is not yet implemented. Use 'add' to create decisions manually.",
        )
    } else {
        Err(
            invalid_argument(
                "operation",
                text::cat3(
                    "Unknown operation '",
                    op,
                    "'. Use: list, add, update, remove, supersede, score, export",
                ),
            ),
        )
    }
}

/// The error for a decision that is not there.
pub fn decision_not_found(id: u64, by: Option<u64>) -> (r: SnatchError)
    ensures
        r@ == invalid(
            "id"@,
            match by {
                Some(b) => "Decision #"@ + decimal(id as nat) + " or #"@ + decimal(b as nat)
                    + " not found"@,
                None => "Decision #"@ + decimal(id as nat) + " not found"@,
            },
        ),
{
    let digits = text::number(id);
    match by {
        Some(b) => {
            let other = text::number(b);
            invalid_argument(
                "id",
                text::cat5("Decision #", digits.as_str(), " or #", other.as_str(), " not found"),
            )
        },
        None => invalid_argument("id", text::cat3("Decision #", digits.as_str(), " not found")),
    }
}

// ---------------------------------------------------------------------------
// References
// ---------------------------------------------------------------------------

/// A list of names with more put behind it, each that is not there yet.
pub open spec fn with_references(
    references: Seq<Seq<char>>,
    related: Seq<Seq<char>>,
) -> Seq<Seq<char>>
    decreases related.len(),
{
    if related.len() == 0 {
        references
    } else {
        let before = with_references(references, related.drop_last());
        if before.contains(related.last()) {
            before
        } else {
            before.push(related.last())
        }
    }
}

/// Puts more sessions behind those that a decision has to do with, each that is not there yet.
pub fn merge_references(references: Vec<String>, related: &Vec<String>) -> (r: Vec<String>)
    ensures
        views(r@) == with_references(views(references@), views(related@)),
{
    let mut out = references;
    let ghost start = views(out@);
    let mut i: usize = 0;
    proof {
        assert(views(related@).take(0) =~= Seq::empty());
    }
    while i < related.len()
        invariant
            i <= related@.len(),
            views(out@) == with_references(start, views(related@).take(i as int)),
        decreases related@.len() - i,
    {
        proof {
            let next = views(related@).take(i + 1);
            assert(next.drop_last() =~= views(related@).take(i as int));
            assert(next.last() == related@[i as int]@);
        }
        if !names::holds_name(&out, related[i].as_str()) {
            text::say(&mut out, related[i].as_str());
        }
        i = i + 1;
    }
    proof {
        assert(views(related@).take(i as int) =~= views(related@));
    }
    out
}

/// All references stay, and all related sessions are among them.
pub proof fn references_are_kept(references: Seq<Seq<char>>, related: Seq<Seq<char>>)
    ensures
        forall|x: Seq<char>| #[trigger]
            with_references(references, related).contains(x) <==> references.contains(x)
                || related.contains(x),
    decreases related.len(),
{
    if related.len() > 0 {
        let front = related.drop_last();
        references_are_kept(references, front);
        let before = with_references(references, front);
        let after = with_references(references, related);
        assert forall|x: Seq<char>| #[trigger] after.contains(x) <==> references.contains(x)
            || related.contains(x) by {
            assert(before.contains(x) <==> references.contains(x) || front.contains(x));
            assert(related =~= front.push(related.last()));
            if after.contains(x) && !before.contains(x) {
                assert(after == before.push(related.last()));
                assert(related[related.len() - 1] == x);
            }
            if before.contains(x) && after != before {
                let k = choose|k: int| 0 <= k < before.len() && before[k] == x;
                assert(after[k] == x);
            }
            if front.contains(x) {
                let k = choose|k: int| 0 <= k < front.len() && front[k] == x;
                assert(related[k] == x);
            }
            if related.contains(x) && !front.contains(x) {
                assert(x == related.last());
                if after != before {
                    assert(after[before.len() as int] == x);
                }
            }
        }
    }
}

/// Putting the same sessions in again changes nothing.
pub proof fn merging_twice_changes_nothing(references: Seq<Seq<char>>, related: Seq<Seq<char>>)
    ensures
        with_references(with_references(references, related), related) == with_references(
            references,
            related,
        ),
{
    lemma_merge_all_there(with_references(references, related), related);
    references_are_kept(references, related);
}

proof fn lemma_merge_all_there(all: Seq<Seq<char>>, related: Seq<Seq<char>>)
    ensures
        (forall|i: int| 0 <= i < related.len() ==> all.contains(#[trigger] related[i]))
            ==> with_references(all, related) == all,
    decreases related.len(),
{
    if related.len() > 0 {
        lemma_merge_all_there(all, related.drop_last());
        if forall|i: int| 0 <= i < related.len() ==> all.contains(#[trigger] related[i]) {
            let front = related.drop_last();
            assert forall|i: int| 0 <= i < front.len() implies all.contains(
                #[trigger] front[i],
            ) by {
                assert(related[i] == front[i]);
            }
            assert(all.contains(related[related.len() - 1]));
        }
    }
}

// ---------------------------------------------------------------------------
// Listing
// ---------------------------------------------------------------------------

/// Of this status, where one is asked for.
pub open spec fn of_status(status: Option<DecisionStatus>) -> spec_fn(Decision) -> bool {
    |d: Decision| status matches Some(s) ==> d.status == s
}

/// With this text in its title or its description, whatever the case of the letters.
pub open spec fn found_by(search: Option<Seq<char>>) -> spec_fn(Decision) -> bool {
    |d: Decision|
        match search {
            Some(s) => has(lowercase(d.title@), lowercase(s)) || (d.description matches Some(t)
                && has(lowercase(t@), lowercase(s))),
            None => true,
        }
}

/// One of the tags of the decision holds this text.
pub open spec fn tagged_with(d: Decision, part: Seq<char>) -> bool {
    exists|i: int| 0 <= i < d.tags@.len() && has(lowercase((#[trigger] d.tags@[i])@), part)
}

/// With a tag that holds one of the parts of some texts, whatever the case of the letters; every
/// decision where there is no text.
pub open spec fn tagged(list: Seq<Seq<char>>) -> spec_fn(Decision) -> bool {
    |d: Decision|
        list.len() == 0 || exists|k: int|
            0 <= k < all_parts(list).len() && tagged_with(
                d,
                lowercase(#[trigger] all_parts(list)[k]),
            )
}

fn is_found(d: &Decision, search: &Option<String>) -> (r: bool)
    ensures
        r == found_by(text_view(*search))(*d),
{
    match search {
        Some(s) => {
            let needle = text::to_lowercase(s.as_str());
            let title = text::to_lowercase(d.title.as_str());
            if text::contains(title.as_str(), needle.as_str()) {
                return true;
            }
            match &d.description {
                Some(t) => {
                    let lower = text::to_lowercase(t.as_str());
                    text::contains(lower.as_str(), needle.as_str())
                },
                None => false,
            }
        },
        None => true,
    }
}

fn has_tag(d: &Decision, part: &str) -> (r: bool)
    ensures
        r == tagged_with(*d, part@),
{
    let mut i: usize = 0;
    while i < d.tags.len()
        invariant
            i <= d.tags@.len(),
            forall|k: int| 0 <= k < i ==> !(has(lowercase((#[trigger] d.tags@[k])@), part@)),
        decreases d.tags@.len() - i,
    {
        let lower = text::to_lowercase(d.tags[i].as_str());
        if text::contains(lower.as_str(), part) {
            return true;
        }
        i = i + 1;
    }
    false
}

fn is_tagged(d: &Decision, list: &Vec<String>, pieces: &Vec<String>) -> (r: bool)
    requires
        views(pieces@) == all_parts(views(list@)),
    ensures
        r == tagged(views(list@))(*d),
{
    if list.len() == 0 {
        return true;
    }
    let mut k: usize = 0;
    while k < pieces.len()
        invariant
            k <= pieces@.len(),
            views(pieces@) == all_parts(views(list@)),
            forall|j: int|
                0 <= j < k ==> !tagged_with(*d, lowercase(#[trigger] all_parts(views(list@))[j])),
        decreases pieces@.len() - k,
    {
        let part = text::to_lowercase(pieces[k].as_str());
        proof {
            assert(all_parts(views(list@))[k as int] == views(pieces@)[k as int]);
        }
        if has_tag(d, part.as_str()) {
            return true;
        }
        k = k + 1;
    }
    proof {
        assert(all_parts(views(list@)).len() == pieces@.len());
    }
    false
}

/// A decision is listed if and only if it has the status that is asked for, its title or its
/// description holds the text that is looked for, and one of its tags holds one of the parts of the
/// tags that are asked for, all without regard to case.
pub proof fn listed_decisions_fit(
    decisions: Seq<Decision>,
    status: Option<DecisionStatus>,
    search: Option<Seq<char>>,
    list: Seq<Seq<char>>,
    d: Decision,
)
    ensures
        decisions.filter(of_status(status)).filter(found_by(search)).filter(tagged(list)).contains(
            d,
        ) <==> {
            &&& decisions.contains(d)
            &&& status is Some ==> d.status == status->0
            &&& search matches Some(s) ==> has(lowercase(d.title@), lowercase(s)) || (
            d.description matches Some(t) && has(lowercase(t@), lowercase(s)))
            &&& list.len() > 0 ==> exists|part: Seq<char>, k: int|
                #![trigger all_parts(list).contains(part), d.tags@[k]]
                all_parts(list).contains(part) && 0 <= k < d.tags@.len() && has(
                    lowercase(d.tags@[k]@),
                    lowercase(part),
                )
        },
{
    let a = decisions.filter(of_status(status));
    let b = a.filter(found_by(search));
    order::filtering_is_exact(decisions, of_status(status));
    order::filtering_is_exact(a, found_by(search));
    order::filtering_is_exact(b, tagged(list));
    assert(a.contains(d) <==> decisions.contains(d) && of_status(status)(d));
    assert(b.contains(d) <==> a.contains(d) && found_by(search)(d));
    assert(b.filter(tagged(list)).contains(d) <==> b.contains(d) && tagged(list)(d));
    let parts = all_parts(list);
    if list.len() > 0 && tagged(list)(d) {
        let k = choose|k: int| 0 <= k < parts.len() && tagged_with(d, lowercase(#[trigger] parts[k]));
        let i = choose|i: int|
            0 <= i < d.tags@.len() && has(lowercase((#[trigger] d.tags@[i])@), lowercase(parts[k]));
        assert(parts.contains(parts[k]) && has(lowercase(d.tags@[i]@), lowercase(parts[k])));
    }
    if exists|part: Seq<char>, k: int|
        #![trigger parts.contains(part), d.tags@[k]]
        parts.contains(part) && 0 <= k < d.tags@.len() && has(
            lowercase(d.tags@[k]@),
            lowercase(part),
        ) {
        let (part, k) = choose|part: Seq<char>, k: int|
            #![trigger parts.contains(part), d.tags@[k]]
            parts.contains(part) && 0 <= k < d.tags@.len() && has(
                lowercase(d.tags@[k]@),
                lowercase(part),
            );
        let x = choose|x: int| 0 <= x < parts.len() && parts[x] == part;
        assert(tagged_with(d, lowercase(parts[x])));
    }
}

/// The decisions that are listed, in order.
pub fn list_decisions(
    decisions: Vec<Decision>,
    status: Option<DecisionStatus>,
    search: &Option<String>,
    tag: &Vec<String>,
) -> (r: Vec<Decision>)
    ensures
        r@ == decisions@.filter(of_status(status)).filter(found_by(text_view(*search))).filter(
            tagged(views(tag@)),
        ),
{
    let stands = |d: &Decision| -> (o: bool)
        ensures
            o == of_status(status)(*d),
        {
            match status {
                Some(s) => d.status == s,
                None => true,
            }
        };
    let first = order::keep(decisions, stands, Ghost(of_status(status)));
    let found = |d: &Decision| -> (o: bool)
        ensures
            o == found_by(text_view(*search))(*d),
        { is_found(d, search) };
    let second = order::keep(first, found, Ghost(found_by(text_view(*search))));
    let pieces = parts(tag);
    let carries = |d: &Decision| -> (o: bool)
        ensures
            o == tagged(views(tag@))(*d),
        { is_tagged(d, tag, &pieces) };
    order::keep(second, carries, Ghost(tagged(views(tag@))))
}

/// The id of the session of the decision can be shortened.
pub open spec fn can_be_listed(d: Decision) -> bool {
    d.session_id matches Some(s) ==> has_short_id(s@)
}

/// The ids of the decision can be shortened.
pub open spec fn can_be_shown(d: Decision) -> bool {
    &&& can_be_listed(d)
    &&& forall|i: int| 0 <= i < d.references@.len() ==> has_short_id((#[trigger] d.references@[i])@)
}

/// The lines of a decision in the list.
pub open spec fn decision_lines(d: Decision) -> Seq<Seq<char>> {
    seq![
        "  ["@ + marker(d.status) + "] #"@ + decimal(d.id as nat) + ": "@ + d.title@ + (
        if d.below_one {
            " ("@ + d.percent@ + "%)"@
        } else {
            Seq::empty()
        }) + (if d.tags@.len() == 0 {
            Seq::empty()
        } else {
            " ["@ + joined(views(d.tags@), ", "@) + "]"@
        }) + (match d.session_id {
            Some(s) => " ("@ + id_head(s@) + ")"@,
            None => Seq::empty(),
        }),
    ] + (match d.description {
        Some(t) => seq!["      "@ + t@],
        None => Seq::empty(),
    })
}

fn write_decision(d: &Decision) -> (r: Vec<String>)
    requires
        can_be_listed(*d),
    ensures
        views(r@) == decision_lines(*d),
{
    let mut out: Vec<String> = Vec::new();
    let sign = write_marker(d.status);
    let digits = text::number(d.id);
    let confidence: String = if d.below_one {
        text::cat3(" (", d.percent.as_str(), "%)")
    } else {
        String::new()
    };
    let tags: String = if d.tags.len() == 0 {
        String::new()
    } else {
        let all = text::join(&d.tags, ", ");
        text::cat3(" [", all.as_str(), "]")
    };
    let session: String = match &d.session_id {
        Some(s) => {
            let short = helpers::short_id(s.as_str());
            text::cat3(" (", short.as_str(), ")")
        },
        None => String::new(),
    };
    let head = text::cat5("  [", sign.as_str(), "] #", digits.as_str(), ": ");
    text::say5(
        &mut out,
        head.as_str(),
        d.title.as_str(),
        confidence.as_str(),
        tags.as_str(),
        session.as_str(),
    );
    match &d.description {
        Some(t) => text::say2(&mut out, "      ", t.as_str()),
        None => {},
    }
    proof {
        assert(views(out@) =~= decision_lines(*d));
    }
    out
}

/// What the list prints: the decisions that were found, and how many there are in all.
pub open spec fn list_lines(
    found: Seq<Decision>,
    project_path: Seq<char>,
    total: usize,
    active: usize,
) -> Seq<Seq<char>> {
    if found.len() == 0 {
        seq!["No decisions for "@ + project_path + "."@]
    } else {
        seq!["Decisions for "@ + project_path + ":"@, ""@] + text::spread(
            found,
            |d: Decision| decision_lines(d),
        ) + seq![
            ""@,
            decimal(total as nat) + " decision(s), "@ + decimal(active as nat) + " active"@,
        ]
    }
}

/// What the list prints.
pub fn print_list(found: &Vec<Decision>, project_path: &str, total: usize, active: usize) -> (r: Vec<
    String,
>)
    requires
        forall|i: int| 0 <= i < found@.len() ==> can_be_listed(#[trigger] found@[i]),
    ensures
        views(r@) == list_lines(found@, project_path@, total, active),
{
    let mut out: Vec<String> = Vec::new();
    if found.len() == 0 {
        text::say3(&mut out, "No decisions for ", project_path, ".");
    } else {
        text::say3(&mut out, "Decisions for ", project_path, ":");
        text::say(&mut out, "");
        text::say_all(&mut out, found, write_decision, Ghost(|d: Decision| decision_lines(d)));
        text::say(&mut out, "");
        let all = text::size(total);
        let some = text::size(active);
        text::say4(&mut out, all.as_str(), " decision(s), ", some.as_str(), " active");
    }
    proof {
        assert(views(out@) =~= list_lines(found@, project_path@, total, active));
    }
    out
}

// ---------------------------------------------------------------------------
// Evidence
// ---------------------------------------------------------------------------

/// A word that says nothing of a topic.
pub open spec fn is_stop_word(w: Seq<char>) -> bool {
    ||| w == "the"@
    ||| w == "this"@
    ||| w == "that"@
    ||| w == "with"@
    ||| w == "from"@
    ||| w == "into"@
    ||| w == "have"@
    ||| w == "will"@
    ||| w == "been"@
    ||| w == "were"@
    ||| w == "they"@
    ||| w == "them"@
    ||| w == "their"@
    ||| w == "what"@
    ||| w == "when"@
    ||| w == "where"@
    ||| w == "which"@
    ||| w == "there"@
    ||| w == "then"@
    ||| w == "than"@
    ||| w == "also"@
    ||| w == "just"@
    ||| w == "more"@
    ||| w == "some"@
    ||| w == "each"@
    ||| w == "does"@
    ||| w == "should"@
    ||| w == "would"@
    ||| w == "could"@
    ||| w == "about"@
    ||| w == "other"@
    ||| w == "take"@
    ||| w == "make"@
    ||| w == "like"@
    ||| w == "over"@
    ||| w == "only"@
    ||| w == "very"@
    ||| w == "after"@
    ||| w == "before"@
}

fn stop_word(w: &str) -> (r: bool)
    ensures
        r == is_stop_word(w@),
{
    text::same(w, "the") || text::same(w, "this") || text::same(w, "that") || text::same(w, "with") || text::same(w, "from") || text::same(w, "into") || text::same(w, "have") || text::same(w, "will") || text::same(w, "been") || text::same(w, "were") || text::same(w, "they") || text::same(w, "them") || text::same(w, "their") || text::same(w, "what") || text::same(w, "when") || text::same(w, "where") || text::same(w, "which") || text::same(w, "there") || text::same(w, "then") || text::same(w, "than") || text::same(w, "also") || text::same(w, "just") || text::same(w, "more") || text::same(w, "some") || text::same(w, "each") || text::same(w, "does") || text::same(w, "should") || text::same(w, "would") || text::same(w, "could") || text::same(w, "about") || text::same(w, "other") || text::same(w, "take") || text::same(w, "make") || text::same(w, "like") || text::same(w, "over") || text::same(w, "only") || text::same(w, "very") || text::same(w, "after") || text::same(w, "before")
}

/// A word that says something of a topic: of more than three bytes, and no common one.
pub open spec fn is_keyword() -> spec_fn(Seq<char>) -> bool {
    |w: Seq<char>| byte_len(w) > 3 && !is_stop_word(w)
}

/// The words of a title in small letters that say something of its topic.
pub open spec fn keywords_of(title_lower: Seq<char>) -> Seq<Seq<char>> {
    words_of(title_lower).filter(is_keyword())
}

/// The telling words of a title are its words of more than three bytes, but for these common ones.
pub proof fn common_words_tell_nothing(title_lower: Seq<char>, w: Seq<char>)
    ensures
        keywords_of(title_lower).contains(w) <==> {
            &&& words_of(title_lower).contains(w)
            &&& byte_len(w) >= 4
            &&& w != "the"@
            &&& w != "this"@
            &&& w != "that"@
            &&& w != "with"@
            &&& w != "from"@
            &&& w != "into"@
            &&& w != "have"@
            &&& w != "will"@
            &&& w != "been"@
            &&& w != "were"@
            &&& w != "they"@
            &&& w != "them"@
            &&& w != "their"@
            &&& w != "what"@
            &&& w != "when"@
            &&& w != "where"@
            &&& w != "which"@
            &&& w != "there"@
            &&& w != "then"@
            &&& w != "than"@
            &&& w != "also"@
            &&& w != "just"@
            &&& w != "more"@
            &&& w != "some"@
            &&& w != "each"@
            &&& w != "does"@
            &&& w != "should"@
            &&& w != "would"@
            &&& w != "could"@
            &&& w != "about"@
            &&& w != "other"@
            &&& w != "take"@
            &&& w != "make"@
            &&& w != "like"@
            &&& w != "over"@
            &&& w != "only"@
            &&& w != "very"@
            &&& w != "after"@
            &&& w != "before"@
        },
{
    order::filtering_is_exact(words_of(title_lower), is_keyword());
    assert(keywords_of(title_lower).contains(w) <==> words_of(title_lower).contains(w)
        && is_keyword()(w));
}

/// The words of a title in small letters that say something of its topic.
pub fn title_keywords(title_lower: &str) -> (r: Vec<String>)
    ensures
        views(r@) == keywords_of(title_lower@),
{
    let all = text::words(title_lower);
    let ghost before = all@;
    let ghost p = |w: String| is_keyword()(w@);
    let telling = |w: &String| -> (o: bool)
        ensures
            o == p(*w),
        { text::bytes(w.as_str()) > 3 && !stop_word(w.as_str()) };
    let kept = order::keep(all, telling, Ghost(p));
    proof {
        let f = |w: String| w@;
        order::lemma_filter_map(before, f, p, is_keyword());
        assert(before.map_values(f) =~= views(before));
        assert(kept@.map_values(f) =~= views(kept@));
    }
    kept
}

/// A text holds all words.
pub open spec fn has_all(words: Seq<Seq<char>>, lower: Seq<char>) -> bool {
    forall|i: int| 0 <= i < words.len() ==> has(lower, #[trigger] words[i])
}

fn contains_all(words: &Vec<String>, lower: &str) -> (r: bool)
    ensures
        r == has_all(views(words@), lower@),
{
    let mut i: usize = 0;
    while i < words.len()
        invariant
            i <= words@.len(),
            forall|k: int| 0 <= k < i ==> has(lower@, #[trigger] views(words@)[k]),
        decreases words@.len() - i,
    {
        if !text::contains(lower, words[i].as_str()) {
            proof {
                assert(!(has(lower@, views(words@)[i as int])));
            }
            return false;
        }
        i = i + 1;
    }
    true
}

/// Whether a text in small letters holds all telling words of a title; fewer than two words tell
/// too little.
pub fn title_matches_text(keywords: &Vec<String>, text_lower: &str) -> (r: bool)
    ensures
        r == (keywords@.len() >= 2 && has_all(views(keywords@), text_lower@)),
{
    if keywords.len() < 2 {
        return false;
    }
    contains_all(keywords, text_lower)
}

/// What a decision is about: its title in small letters and the telling words of that.
#[derive(Debug, Clone, PartialEq, Eq)]
pub struct Topic {
    /// The title in small letters.
    pub title_lower: String,
    /// Its telling words.
    pub keywords: Vec<String>,
}

/// What a decision is about.
pub fn topic_of(title: &str) -> (r: Topic)
    ensures
        r.title_lower@ == lowercase(title@),
        views(r.keywords@) == keywords_of(lowercase(title@)),
{
    let title_lower = text::to_lowercase(title);
    let keywords = title_keywords(title_lower.as_str());
    Topic { title_lower, keywords }
}

/// A text in small letters is about the topic: it holds the title, or all its telling words.
pub open spec fn about(topic: Topic, lower: Seq<char>) -> bool {
    has(lower, topic.title_lower@) || (topic.keywords@.len() >= 2 && has_all(
        views(topic.keywords@),
        lower,
    ))
}

/// Whether a text in small letters is about the topic.
pub fn is_about(topic: &Topic, lower: &str) -> (r: bool)
    ensures
        r == about(*topic, lower@),
{
    text::contains(lower, topic.title_lower.as_str()) || title_matches_text(&topic.keywords, lower)
}

/// The assistant speaks of the topic.
pub open spec fn speaks_of(e: LogEntry, topic: Topic) -> bool {
    e is Assistant && (entry_text(e) matches Some(t) && about(topic, lowercase(t)))
}

fn does_speak_of(e: &LogEntry, topic: &Topic) -> (r: bool)
    ensures
        r == speaks_of(*e, *topic),
{
    match e {
        LogEntry::Assistant(_) => match helpers::extract_text(e) {
            Some(t) => {
                let lower = text::to_lowercase(t.as_str());
                is_about(topic, lower.as_str())
            },
            None => false,
        },
        _ => false,
    }
}

/// The user agrees right after the entry.
pub open spec fn confirmed_after(m: Seq<LogEntry>, i: int) -> bool {
    i + 1 < m.len() && m[i + 1] is User && (entry_text(m[i + 1]) matches Some(t) && affirms(
        trimmed(t),
        lowercase(trimmed(t)),
    ))
}

/// A tool is called within the three entries after the entry.
pub open spec fn acted_after(m: Seq<LogEntry>, i: int) -> bool {
    exists|j: int| i < j < m.len() && j < i + 4 && calls_tool(#[trigger] m[j])
}

fn is_confirmed_after(m: &Vec<&LogEntry>, i: usize) -> (r: bool)
    requires
        i < m@.len(),
    ensures
        r == confirmed_after(m@.unref(), i as int),
{
    let total: usize = m.len();
    if i < total - 1 {
        let next: &LogEntry = m[i + 1];
        proof {
            assert(m@.unref()[i + 1] == *m@[i + 1]);
        }
        match next {
            LogEntry::User(_) => match helpers::extract_text(next) {
                Some(t) => helpers::is_affirmative(t.as_str()),
                None => false,
            },
            _ => false,
        }
    } else {
        false
    }
}

fn is_acted_after(m: &Vec<&LogEntry>, i: usize) -> (r: bool)
    requires
        i < m@.len(),
    ensures
        r == acted_after(m@.unref(), i as int),
{
    let total: usize = m.len();
    let mut step: usize = 1;
    while step < 4 && step < total - i
        invariant
            total == m@.len(),
            i < total,
            1 <= step <= 4,
            step <= total - i,
            forall|j: int| i < j < i + step ==> !calls_tool(#[trigger] m@.unref()[j]),
        decreases 4 - step,
    {
        proof {
            assert(m@.unref()[i + step] == *m@[i + step]);
        }
        if helpers::has_tool_calls(m[i + step]) {
            return true;
        }
        step = step + 1;
    }
    false
}

/// The assistant speaks of the topic, and the user agrees right after.
pub open spec fn confirmation(m: Seq<LogEntry>, topic: Topic) -> bool {
    exists|i: int|
        0 <= i < m.len() && speaks_of(#[trigger] m[i], topic) && confirmed_after(m, i)
}

/// The assistant speaks of the topic, and a tool is called soon after.
pub open spec fn implementation(m: Seq<LogEntry>, topic: Topic) -> bool {
    exists|i: int| 0 <= i < m.len() && speaks_of(#[trigger] m[i], topic) && acted_after(m, i)
}

/// The assistant lays out options for the topic.
pub open spec fn lays_out(e: LogEntry, topic: Topic) -> bool {
    e is Assistant && (entry_text(e) matches Some(t) && (has(lowercase(t), topic.title_lower@)
        || has_all(words_of(topic.title_lower@), lowercase(t))) && has_options(t))
}

/// The assistant lays out options for the topic somewhere.
pub open spec fn deliberation(m: Seq<LogEntry>, topic: Topic) -> bool {
    exists|i: int| 0 <= i < m.len() && lays_out(#[trigger] m[i], topic)
}

/// A text in small letters corrects something.
pub open spec fn is_correction(lower: Seq<char>) -> bool {
    ||| has(lower, "no, "@)
    ||| has(lower, "no that's wrong"@)
    ||| has(lower, "that's not what i"@)
    ||| has(lower, "i said "@)
    ||| has(lower, "i meant "@)
    ||| has(lower, "not what i asked"@)
    ||| has(lower, "wrong "@)
    ||| has(lower, "incorrect"@)
    ||| has(lower, "don't do that"@)
}

/// A text that holds one of these phrases anywhere corrects something.
pub proof fn correcting_phrases_correct(before: Seq<char>, rest: Seq<char>)
    ensures
        is_correction(before + "no, "@ + rest),
        is_correction(before + "no that's wrong"@ + rest),
        is_correction(before + "that's not what i"@ + rest),
        is_correction(before + "i said "@ + rest),
        is_correction(before + "i meant "@ + rest),
        is_correction(before + "not what i asked"@ + rest),
        is_correction(before + "wrong "@ + rest),
        is_correction(before + "incorrect"@ + rest),
        is_correction(before + "don't do that"@ + rest),
{
    text::parts_make_the_whole(before + "no, "@ + rest, "no, "@, before, rest);
    text::parts_make_the_whole(before + "no that's wrong"@ + rest, "no that's wrong"@, before, rest);
    text::parts_make_the_whole(before + "that's not what i"@ + rest, "that's not what i"@, before, rest);
    text::parts_make_the_whole(before + "i said "@ + rest, "i said "@, before, rest);
    text::parts_make_the_whole(before + "i meant "@ + rest, "i meant "@, before, rest);
    text::parts_make_the_whole(before + "not what i asked"@ + rest, "not what i asked"@, before, rest);
    text::parts_make_the_whole(before + "wrong "@ + rest, "wrong "@, before, rest);
    text::parts_make_the_whole(before + "incorrect"@ + rest, "incorrect"@, before, rest);
    text::parts_make_the_whole(before + "don't do that"@ + rest, "don't do that"@, before, rest);
}

/// Whether a text in small letters corrects something.
pub fn corrects(lower: &str) -> (r: bool)
    ensures
        r == is_correction(lower@),
{
    text::contains(lower, "no, ") || text::contains(lower, "no that's wrong") || text::contains(lower, "that's not what i") || text::contains(lower, "i said ") || text::contains(lower, "i meant ") || text::contains(lower, "not what i asked") || text::contains(lower, "wrong ") || text::contains(lower, "incorrect") || text::contains(lower, "don't do that")
}

/// The user corrects something of the topic.
pub open spec fn objects_to(e: LogEntry, topic: Topic) -> bool {
    e is User && (entry_text(e) matches Some(t) && is_correction(lowercase(t)) && about(
        topic,
        lowercase(t),
    ))
}

/// The user corrects something of the topic somewhere.
pub open spec fn correction(m: Seq<LogEntry>, topic: Topic) -> bool {
    exists|i: int| 0 <= i < m.len() && objects_to(#[trigger] m[i], topic)
}

fn does_lay_out(e: &LogEntry, topic: &Topic) -> (r: bool)
    ensures
        r == lays_out(*e, *topic),
{
    match e {
        LogEntry::Assistant(_) => match helpers::extract_text(e) {
            Some(t) => {
                let lower = text::to_lowercase(t.as_str());
                let words = text::words(topic.title_lower.as_str());
                (text::contains(lower.as_str(), topic.title_lower.as_str()) || contains_all(
                    &words,
                    lower.as_str(),
                )) && helpers::has_options_pattern(t.as_str())
            },
            None => false,
        },
        _ => false,
    }
}

fn does_object_to(e: &LogEntry, topic: &Topic) -> (r: bool)
    ensures
        r == objects_to(*e, *topic),
{
    match e {
        LogEntry::User(_) => match helpers::extract_text(e) {
            Some(t) => {
                let lower = text::to_lowercase(t.as_str());
                corrects(lower.as_str()) && is_about(topic, lower.as_str())
            },
            None => false,
        },
        _ => false,
    }
}

/// What a session says for and against a decision.
#[derive(Debug, Clone, Copy, PartialEq, Eq)]
pub struct Signals {
    /// The user agreed.
    pub confirmation: bool,
    /// It was put to work.
    pub implementation: bool,
    /// Options were laid out.
    pub options: bool,
    /// The user corrected it.
    pub correction: bool,
}

/// What the sessions of a decision say for and against it. Only their main thread counts.
pub fn find_signals(entries: &Vec<LogEntry>, topic: &Topic) -> (r: Signals)
    ensures
        ({
            let m = entries@.filter(on_main_thread());
            &&& r.confirmation == confirmation(m, *topic)
            &&& r.implementation == implementation(m, *topic)
            &&& r.options == deliberation(m, *topic)
            &&& r.correction == correction(m, *topic)
        }),
{
    let main = helpers::main_thread_entries(entries);
    let ghost m = main@.unref();
    let mut found = Signals {
        confirmation: false,
        implementation: false,
        options: false,
        correction: false,
    };
    let mut i: usize = 0;
    while i < main.len()
        invariant
            i <= main@.len(),
            m == main@.unref(),
            found.confirmation == exists|k: int|
                0 <= k < i && speaks_of(#[trigger] m[k], *topic) && confirmed_after(m, k),
            found.implementation == exists|k: int|
                0 <= k < i && speaks_of(#[trigger] m[k], *topic) && acted_after(m, k),
            found.options == exists|k: int| 0 <= k < i && lays_out(#[trigger] m[k], *topic),
            found.correction == exists|k: int| 0 <= k < i && objects_to(#[trigger] m[k], *topic),
        decreases main@.len() - i,
    {
        let e: &LogEntry = main[i];
        proof {
            assert(m[i as int] == *e);
        }
        if does_speak_of(e, topic) {
            if is_confirmed_after(&main, i) {
                found.confirmation = true;
            }
            if is_acted_after(&main, i) {
                found.implementation = true;
            }
        }
        if does_lay_out(e, topic) {
            found.options = true;
        }
        if does_object_to(e, topic) {
            found.correction = true;
        }
        i = i + 1;
    }
    found
}

/// A text holds the title of the topic, or at least two telling words and each of them somewhere.
pub open spec fn touches(topic: Topic, lower: Seq<char>) -> bool {
    ||| has(lower, topic.title_lower@)
    ||| topic.keywords@.len() > 1 && forall|k: int|
        0 <= k < topic.keywords@.len() ==> has(lower, (#[trigger] topic.keywords@[k])@)
}

proof fn lemma_touches(topic: Topic, lower: Seq<char>)
    ensures
        about(topic, lower) == touches(topic, lower),
{
    let words = views(topic.keywords@);
    if has_all(words, lower) {
        assert forall|k: int| 0 <= k < topic.keywords@.len() implies has(
            lower,
            (#[trigger] topic.keywords@[k])@,
        ) by {
            assert(words[k] == topic.keywords@[k]@);
        }
    }
    if forall|k: int|
        0 <= k < topic.keywords@.len() ==> has(lower, (#[trigger] topic.keywords@[k])@) {
        assert forall|k: int| 0 <= k < words.len() implies has(lower, #[trigger] words[k]) by {
            assert(words[k] == topic.keywords@[k]@);
        }
    }
}

/// Where the assistant holds the title in its text, or at least two telling words of it wherever
/// and in whatever order they stand, and the user agrees right after, the confirmation is found;
/// and one is found only there.
pub proof fn agreement_confirms(m: Seq<LogEntry>, topic: Topic)
    ensures
        confirmation(m, topic) <==> exists|i: int|
            #![trigger m[i]]
            0 <= i < m.len() - 1 && m[i] is Assistant && (entry_text(m[i]) matches Some(said)
                && touches(topic, lowercase(said))) && m[i + 1] is User && (entry_text(m[i + 1])
                matches Some(answer) && affirms(trimmed(answer), lowercase(trimmed(answer)))),
{
    if confirmation(m, topic) {
        let i = choose|i: int|
            0 <= i < m.len() && speaks_of(#[trigger] m[i], topic) && confirmed_after(m, i);
        lemma_touches(topic, lowercase(entry_text(m[i])->0));
        assert(m[i] is Assistant && m[i + 1] is User);
    }
    if exists|i: int|
        #![trigger m[i]]
        0 <= i < m.len() - 1 && m[i] is Assistant && (entry_text(m[i]) matches Some(said)
            && touches(topic, lowercase(said))) && m[i + 1] is User && (entry_text(m[i + 1])
            matches Some(answer) && affirms(trimmed(answer), lowercase(trimmed(answer)))) {
        let i = choose|i: int|
            #![trigger m[i]]
            0 <= i < m.len() - 1 && m[i] is Assistant && (entry_text(m[i]) matches Some(said)
                && touches(topic, lowercase(said))) && m[i + 1] is User && (entry_text(m[i + 1])
                matches Some(answer) && affirms(trimmed(answer), lowercase(trimmed(answer))));
        lemma_touches(topic, lowercase(entry_text(m[i])->0));
        assert(speaks_of(m[i], topic) && confirmed_after(m, i));
    }
}

/// Where the assistant speaks of the topic as above and calls a tool in one of the next three
/// entries, the decision was put to work; and it was only there.
pub proof fn tools_put_to_work(m: Seq<LogEntry>, topic: Topic)
    ensures
        implementation(m, topic) <==> exists|i: int, j: int|
            #![trigger m[i], m[j]]
            0 <= i < j < m.len() && j <= i + 3 && m[i] is Assistant && (entry_text(m[i])
                matches Some(said) && touches(topic, lowercase(said))) && calls_tool(m[j]),
{
    if implementation(m, topic) {
        let i = choose|i: int|
            0 <= i < m.len() && speaks_of(#[trigger] m[i], topic) && acted_after(m, i);
        lemma_touches(topic, lowercase(entry_text(m[i])->0));
        let j = choose|j: int| i < j < m.len() && j < i + 4 && calls_tool(#[trigger] m[j]);
        assert(m[i] is Assistant && calls_tool(m[j]));
    }
    if exists|i: int, j: int|
        #![trigger m[i], m[j]]
        0 <= i < j < m.len() && j <= i + 3 && m[i] is Assistant && (entry_text(m[i])
            matches Some(said) && touches(topic, lowercase(said))) && calls_tool(m[j]) {
        let (i, j) = choose|i: int, j: int|
            #![trigger m[i], m[j]]
            0 <= i < j < m.len() && j <= i + 3 && m[i] is Assistant && (entry_text(m[i])
                matches Some(said) && touches(topic, lowercase(said))) && calls_tool(m[j]);
        lemma_touches(topic, lowercase(entry_text(m[i])->0));
        assert(calls_tool(m[j]));
        assert(acted_after(m, i));
        assert(speaks_of(m[i], topic));
    }
}

/// Where the user corrects something in a text that touches the topic, the correction is found;
/// and one is found only there.
pub proof fn corrections_are_of_the_user(m: Seq<LogEntry>, topic: Topic)
    ensures
        correction(m, topic) <==> exists|i: int|
            #![trigger m[i]]
            0 <= i < m.len() && m[i] is User && (entry_text(m[i]) matches Some(said)
                && is_correction(lowercase(said)) && touches(topic, lowercase(said))),
{
    if correction(m, topic) {
        let i = choose|i: int| 0 <= i < m.len() && objects_to(#[trigger] m[i], topic);
        lemma_touches(topic, lowercase(entry_text(m[i])->0));
        assert(m[i] is User);
    }
    if exists|i: int|
        #![trigger m[i]]
        0 <= i < m.len() && m[i] is User && (entry_text(m[i]) matches Some(said) && is_correction(
            lowercase(said),
        ) && touches(topic, lowercase(said))) {
        let i = choose|i: int|
            #![trigger m[i]]
            0 <= i < m.len() && m[i] is User && (entry_text(m[i]) matches Some(said)
                && is_correction(lowercase(said)) && touches(topic, lowercase(said)));
        lemma_touches(topic, lowercase(entry_text(m[i])->0));
        assert(objects_to(m[i], topic));
    }
}

/// Where the assistant lays out options in a text that holds the title or each of its words,
/// options are found; and they are found only there.
pub proof fn options_are_of_the_assistant(m: Seq<LogEntry>, topic: Topic)
    ensures
        deliberation(m, topic) <==> exists|i: int|
            #![trigger m[i]]
            0 <= i < m.len() && m[i] is Assistant && (entry_text(m[i]) matches Some(said)
                && has_options(said) && (has(lowercase(said), topic.title_lower@) || forall|
                w: Seq<char>,
            | #[trigger]
                words_of(topic.title_lower@).contains(w) ==> has(lowercase(said), w))),
{
    let words = words_of(topic.title_lower@);
    assert forall|lower: Seq<char>| #[trigger] has_all(words, lower) <==> (forall|w: Seq<char>|
     #[trigger]
        words.contains(w) ==> has(lower, w)) by {
        if has_all(words, lower) {
            assert forall|w: Seq<char>| #[trigger] words.contains(w) implies has(lower, w) by {
                let k = choose|k: int| 0 <= k < words.len() && words[k] == w;
                assert(has(lower, words[k]));
            }
        }
        if forall|w: Seq<char>| #[trigger] words.contains(w) ==> has(lower, w) {
            assert forall|k: int| 0 <= k < words.len() implies has(lower, #[trigger] words[k]) by {
                assert(words.contains(words[k]));
            }
        }
    }
    if deliberation(m, topic) {
        let i = choose|i: int| 0 <= i < m.len() && lays_out(#[trigger] m[i], topic);
        let lower = lowercase(entry_text(m[i])->0);
        assert(has_all(words, lower) || has(lower, topic.title_lower@));
        assert(m[i] is Assistant);
    }
    if exists|i: int|
        #![trigger m[i]]
        0 <= i < m.len() && m[i] is Assistant && (entry_text(m[i]) matches Some(said)
            && has_options(said) && (has(lowercase(said), topic.title_lower@) || forall|
            w: Seq<char>,
        | #[trigger]
            words.contains(w) ==> has(lowercase(said), w))) {
        let i = choose|i: int|
            #![trigger m[i]]
            0 <= i < m.len() && m[i] is Assistant && (entry_text(m[i]) matches Some(said)
                && has_options(said) && (has(lowercase(said), topic.title_lower@) || forall|
                w: Seq<char>,
            | #[trigger]
                words.contains(w) ==> has(lowercase(said), w)));
        let lower = lowercase(entry_text(m[i])->0);
        assert(has_all(words, lower) || has(lower, topic.title_lower@));
        assert(lays_out(m[i], topic));
    }
}

/// The first entry in which the assistant speaks of the topic; the number of entries where there
/// is none.
pub open spec fn first_mention(m: Seq<LogEntry>, topic: Topic) -> int
    decreases m.len(),
{
    if m.len() == 0 {
        0
    } else {
        let before = first_mention(m.drop_last(), topic);
        if before < m.len() - 1 {
            before
        } else if speaks_of(m.last(), topic) {
            m.len() - 1
        } else {
            m.len() as int
        }
    }
}

proof fn lemma_first_mention(m: Seq<LogEntry>, topic: Topic, k: int)
    requires
        0 <= k < m.len(),
        speaks_of(m[k], topic),
        forall|j: int| 0 <= j < k ==> !speaks_of(#[trigger] m[j], topic),
    ensures
        first_mention(m, topic) == k,
    decreases m.len(),
{
    if k < m.len() - 1 {
        lemma_first_mention(m.drop_last(), topic, k);
    } else {
        lemma_no_mention(m.drop_last(), topic);
    }
}

proof fn lemma_no_mention(m: Seq<LogEntry>, topic: Topic)
    requires
        forall|j: int| 0 <= j < m.len() ==> !speaks_of(#[trigger] m[j], topic),
    ensures
        first_mention(m, topic) == m.len(),
    decreases m.len(),
{
    if m.len() > 0 {
        lemma_no_mention(m.drop_last(), topic);
    }
}

/// What other sessions of the project say for a decision.
#[derive(Debug, Clone, Copy, PartialEq, Eq)]
pub struct CrossEvidence {
    /// The number of sessions in which the user agreed.
    pub confirmations: usize,
    /// The number of sessions in which it was put to work.
    pub implementations: usize,
}

/// Another session of the project was already looked at: it is the session of the decision, or
/// one that the decision has to do with.
pub open spec fn is_skipped(
    session_id: Seq<char>,
    own: Seq<char>,
    references: Seq<Seq<char>>,
) -> bool {
    session_id == own || references.contains(session_id)
}

/// Adds what another session of the project says for a decision: only the first place counts at
/// which the assistant speaks of the topic.
pub fn add_session(
    so_far: CrossEvidence,
    session_id: &str,
    own: &str,
    references: &Vec<String>,
    entries: &Vec<LogEntry>,
    topic: &Topic,
) -> (r: CrossEvidence)
    requires
        so_far.confirmations < usize::MAX,
        so_far.implementations < usize::MAX,
    ensures
        ({
            let m = entries@.filter(on_main_thread());
            let k = first_mention(m, *topic);
            let counts = !is_skipped(session_id@, own@, views(references@)) && k < m.len();
            &&& r.confirmations == so_far.confirmations + (if counts && confirmed_after(m, k) {
                1int
            } else {
                0
            })
            &&& r.implementations == so_far.implementations + (if counts && acted_after(m, k) {
                1int
            } else {
                0
            })
        }),
{
    if text::same(session_id, own) || names::holds_name(references, session_id) {
        return so_far;
    }
    let main = helpers::main_thread_entries(entries);
    let ghost m = main@.unref();
    let mut i: usize = 0;
    while i < main.len()
        invariant
            i <= main@.len(),
            m == main@.unref(),
            so_far.confirmations < usize::MAX,
            so_far.implementations < usize::MAX,
            !is_skipped(session_id@, own@, views(references@)),
            m == entries@.filter(on_main_thread()),
            forall|j: int| 0 <= j < i ==> !speaks_of(#[trigger] m[j], *topic),
        decreases main@.len() - i,
    {
        proof {
            assert(m[i as int] == *main@[i as int]);
        }
        if does_speak_of(main[i], topic) {
            proof {
                lemma_first_mention(m, *topic, i as int);
            }
            let mut found = so_far;
            if is_confirmed_after(&main, i) {
                found.confirmations = found.confirmations + 1;
            }
            if is_acted_after(&main, i) {
                found.implementations = found.implementations + 1;
            }
            return found;
        }
        i = i + 1;
    }
    proof {
        lemma_no_mention(m, *topic);
    }
    so_far
}

// ---------------------------------------------------------------------------
// The score
// ---------------------------------------------------------------------------

/// A step, where something holds.
pub open spec fn step_if(holds: bool, hundredths: i32) -> Seq<i32> {
    if holds {
        seq![hundredths]
    } else {
        Seq::empty()
    }
}

fn push_if(out: &mut Vec<i32>, holds: bool, hundredths: i32)
    ensures
        final(out)@ == old(out)@ + step_if(holds, hundredths),
{
    let ghost start = out@;
    if holds {
        out.push(hundredths);
    }
    proof {
        assert(out@ =~= start + step_if(holds, hundredths));
    }
}

/// What speaks for and against a decision, in hundredths, in the order in which it is added.
pub open spec fn steps(signals: Signals, cross: CrossEvidence, status: DecisionStatus) -> Seq<i32> {
    step_if(signals.confirmation, 20) + step_if(signals.implementation, 15) + step_if(signals.options, 10) + step_if(signals.correction, -20i32) + step_if(cross.confirmations > 0, 10) + step_if(cross.implementations > 0, 10) + step_if(status is Superseded, -15i32) + step_if(status is Confirmed, 10)
}

/// What speaks for and against a decision, in hundredths, in the order in which it is added.
pub fn score_steps(signals: Signals, cross: CrossEvidence, status: DecisionStatus) -> (r: Vec<i32>)
    ensures
        r@ == steps(signals, cross, status),
{
    let mut out: Vec<i32> = Vec::new();
    proof {
        assert(out@ + step_if(signals.confirmation, 20) =~= step_if(signals.confirmation, 20));
    }
    push_if(&mut out, signals.confirmation, 20);
    push_if(&mut out, signals.implementation, 15);
    push_if(&mut out, signals.options, 10);
    push_if(&mut out, signals.correction, -20);
    push_if(&mut out, cross.confirmations > 0, 10);
    push_if(&mut out, cross.implementations > 0, 10);
    push_if(&mut out, matches!(status, DecisionStatus::Superseded), -15);
    push_if(&mut out, matches!(status, DecisionStatus::Confirmed), 10);
    out
}

/// The number of hundredths that something adds.
pub open spec fn step(holds: bool, hundredths: int) -> int {
    if holds {
        hundredths
    } else {
        0
    }
}

/// A half, and what speaks for and against the decision, in hundredths.
pub open spec fn raw_score(signals: Signals, cross: CrossEvidence, status: DecisionStatus) -> int {
    50 + step(signals.confirmation, 20) + step(signals.implementation, 15) + step(
        signals.options,
        10,
    ) + step(signals.correction, -20) + step(cross.confirmations > 0, 10) + step(
        cross.implementations > 0,
        10,
    ) + step(status is Superseded, -15) + step(status is Confirmed, 10)
}

/// How far a decision is relied on, in hundredths: no more than the whole, no less than nothing.
pub open spec fn score(signals: Signals, cross: CrossEvidence, status: DecisionStatus) -> int {
    let raw = raw_score(signals, cross, status);
    if raw > 100 {
        100
    } else if raw < 0 {
        0
    } else {
        raw
    }
}

/// How far a decision is relied on, in hundredths.
pub fn score_hundredths(signals: Signals, cross: CrossEvidence, status: DecisionStatus) -> (r: i32)
    ensures
        r == score(signals, cross, status),
{
    let mut raw: i32 = 50;
    if signals.confirmation {
        raw = raw + 20;
    }
    if signals.implementation {
        raw = raw + 15;
    }
    if signals.options {
        raw = raw + 10;
    }
    if signals.correction {
        raw = raw - 20;
    }
    if cross.confirmations > 0 {
        raw = raw + 10;
    }
    if cross.implementations > 0 {
        raw = raw + 10;
    }
    if matches!(status, DecisionStatus::Superseded) {
        raw = raw - 15;
    }
    if matches!(status, DecisionStatus::Confirmed) {
        raw = raw + 10;
    }
    if raw > 100 {
        100
    } else if raw < 0 {
        0
    } else {
        raw
    }
}

/// More that speaks for a decision never lowers its score, and a correction never raises it.
pub proof fn evidence_counts_one_way(
    signals: Signals,
    more: Signals,
    cross: CrossEvidence,
    cross_more: CrossEvidence,
    status: DecisionStatus,
)
    requires
        signals.confirmation ==> more.confirmation,
        signals.implementation ==> more.implementation,
        signals.options ==> more.options,
        more.correction ==> signals.correction,
        cross.confirmations <= cross_more.confirmations,
        cross.implementations <= cross_more.implementations,
    ensures
        score(signals, cross, status) <= score(more, cross_more, status),
{
}

/// A score is between fifteen hundredths and the whole: nothing that speaks against a decision
/// brings it to nothing.
pub proof fn scores_stay_in_range(signals: Signals, cross: CrossEvidence, status: DecisionStatus)
    ensures
        15 <= score(signals, cross, status) <= 100,
{
}

/// Each sign has its weight, whatever the others are: an agreement twenty hundredths, work that was
/// done fifteen, options ten, a correction twenty against; another session that agrees ten, one
/// that put it to work ten, however many there are. A decision that was replaced loses fifteen
/// against one that stands, and a confirmed one gains ten. With no sign it is a half.
pub proof fn signs_have_their_weights(
    signals: Signals,
    cross: CrossEvidence,
    status: DecisionStatus,
    n: usize,
)
    requires
        n > 0,
    ensures
        raw_score(Signals { confirmation: true, ..signals }, cross, status) == 20 + raw_score(
            Signals { confirmation: false, ..signals },
            cross,
            status,
        ),
        raw_score(Signals { implementation: true, ..signals }, cross, status) == 15 + raw_score(
            Signals { implementation: false, ..signals },
            cross,
            status,
        ),
        raw_score(Signals { options: true, ..signals }, cross, status) == 10 + raw_score(
            Signals { options: false, ..signals },
            cross,
            status,
        ),
        raw_score(Signals { correction: true, ..signals }, cross, status) + 20 == raw_score(
            Signals { correction: false, ..signals },
            cross,
            status,
        ),
        raw_score(signals, CrossEvidence { confirmations: n, ..cross }, status) == 10 + raw_score(
            signals,
            CrossEvidence { confirmations: 0, ..cross },
            status,
        ),
        raw_score(signals, CrossEvidence { implementations: n, ..cross }, status) == 10 + raw_score(
            signals,
            CrossEvidence { implementations: 0, ..cross },
            status,
        ),
        status !is Superseded && status !is Confirmed ==> raw_score(
            signals,
            cross,
            DecisionStatus::Superseded,
        ) + 15 == raw_score(signals, cross, status) && raw_score(
            signals,
            cross,
            DecisionStatus::Confirmed,
        ) == raw_score(signals, cross, status) + 10,
        !signals.confirmation && !signals.implementation && !signals.options && !signals.correction
            && cross.confirmations == 0 && cross.implementations == 0 && status !is Superseded
            && status !is Confirmed ==> raw_score(signals, cross, status) == 50,
        0 <= raw_score(signals, cross, status) <= 100 ==> score(signals, cross, status)
            == raw_score(signals, cross, status),
        raw_score(signals, cross, status) > 100 ==> score(signals, cross, status) == 100,
{
}

/// The sum of a list of steps.
pub open spec fn sum_of(list: Seq<i32>) -> int
    decreases list.len(),
{
    if list.len() == 0 {
        0
    } else {
        sum_of(list.drop_last()) + list.last()
    }
}

proof fn lemma_sum_step(list: Seq<i32>, holds: bool, hundredths: i32)
    ensures
        sum_of(list + step_if(holds, hundredths)) == sum_of(list) + step(holds, hundredths as int),
{
    let all = list + step_if(holds, hundredths);
    if holds {
        assert(all.drop_last() =~= list);
    } else {
        assert(all =~= list);
    }
}

/// The steps that are shown add up to what the score is made of beside the half.
pub proof fn steps_add_up(signals: Signals, cross: CrossEvidence, status: DecisionStatus)
    ensures
        50 + sum_of(steps(signals, cross, status)) == raw_score(signals, cross, status),
{
    let none = Seq::<i32>::empty();
    let a = step_if(signals.confirmation, 20);
    let b = a + step_if(signals.implementation, 15);
    let c = b + step_if(signals.options, 10);
    let d = c + step_if(signals.correction, -20i32);
    let e = d + step_if(cross.confirmations > 0, 10);
    let f = e + step_if(cross.implementations > 0, 10);
    let g = f + step_if(status is Superseded, -15i32);
    assert(none + a =~= a);
    lemma_sum_step(none, signals.confirmation, 20);
    lemma_sum_step(a, signals.implementation, 15);
    lemma_sum_step(b, signals.options, 10);
    lemma_sum_step(c, signals.correction, -20i32);
    lemma_sum_step(d, cross.confirmations > 0, 10);
    lemma_sum_step(e, cross.implementations > 0, 10);
    lemma_sum_step(f, status is Superseded, -15i32);
    lemma_sum_step(g, status is Confirmed, 10);
}

/// Another session of the project.
#[derive(Debug)]
pub struct OtherSession {
    /// Its id.
    pub session_id: String,
    /// Its entries.
    pub entries: Vec<LogEntry>,
}

/// Whether another session speaks of the topic and the user agrees there.
pub open spec fn agrees(s: OtherSession, own: Seq<char>, references: Seq<Seq<char>>, topic: Topic) -> bool {
    let m = s.entries@.filter(on_main_thread());
    let k = first_mention(m, topic);
    !is_skipped(s.session_id@, own, references) && k < m.len() && confirmed_after(m, k)
}

/// Whether another session speaks of the topic and it is put to work there.
pub open spec fn acts(s: OtherSession, own: Seq<char>, references: Seq<Seq<char>>, topic: Topic) -> bool {
    let m = s.entries@.filter(on_main_thread());
    let k = first_mention(m, topic);
    !is_skipped(s.session_id@, own, references) && k < m.len() && acted_after(m, k)
}

/// Another session counts by the first entry in which the assistant touches the topic, and by no
/// later one: for agreement where the user agrees right after it, for work where a tool is called
/// in one of the next three entries. The session of the decision itself and those that it has to do
/// with do not count.
pub proof fn first_mention_decides(
    s: OtherSession,
    own: Seq<char>,
    references: Seq<Seq<char>>,
    topic: Topic,
    i: int,
)
    requires
        ({
            let m = s.entries@.filter(on_main_thread());
            &&& 0 <= i < m.len()
            &&& m[i] is Assistant
            &&& entry_text(m[i]) matches Some(said) && touches(topic, lowercase(said))
            &&& forall|k: int|
                0 <= k < i && (#[trigger] m[k]) is Assistant && entry_text(m[k]) is Some
                    ==> !touches(topic, lowercase(entry_text(m[k])->0))
        }),
    ensures
        ({
            let m = s.entries@.filter(on_main_thread());
            let is_other = s.session_id@ != own && !references.contains(s.session_id@);
            &&& agrees(s, own, references, topic) <==> is_other && i + 1 < m.len() && m[i + 1]
                is User && (entry_text(m[i + 1]) matches Some(answer) && affirms(
                trimmed(answer),
                lowercase(trimmed(answer)),
            ))
            &&& acts(s, own, references, topic) <==> is_other && exists|j: int|
                i < j < m.len() && j <= i + 3 && calls_tool(#[trigger] m[j])
        }),
{
    let m = s.entries@.filter(on_main_thread());
    lemma_touches(topic, lowercase(entry_text(m[i])->0));
    assert forall|k: int| 0 <= k < i implies !speaks_of(#[trigger] m[k], topic) by {
        if m[k] is Assistant && entry_text(m[k]) is Some {
            lemma_touches(topic, lowercase(entry_text(m[k])->0));
        }
    }
    lemma_first_mention(m, topic, i);
}

/// A session in which the assistant nowhere touches the topic says nothing for a decision.
pub proof fn silent_sessions_say_nothing(
    s: OtherSession,
    own: Seq<char>,
    references: Seq<Seq<char>>,
    topic: Topic,
)
    requires
        ({
            let m = s.entries@.filter(on_main_thread());
            forall|k: int|
                0 <= k < m.len() && (#[trigger] m[k]) is Assistant && entry_text(m[k]) is Some
                    ==> !touches(topic, lowercase(entry_text(m[k])->0))
        }),
    ensures
        !agrees(s, own, references, topic),
        !acts(s, own, references, topic),
{
    let m = s.entries@.filter(on_main_thread());
    assert forall|k: int| 0 <= k < m.len() implies !speaks_of(#[trigger] m[k], topic) by {
        if m[k] is Assistant && entry_text(m[k]) is Some {
            lemma_touches(topic, lowercase(entry_text(m[k])->0));
        }
    }
    lemma_no_mention(m, topic);
}

/// What the other sessions show of a decision.
pub open spec fn is_evidence_of(
    c: CrossEvidence,
    others: Seq<OtherSession>,
    own: Seq<char>,
    references: Seq<Seq<char>>,
    topic: Topic,
) -> bool {
    &&& c.confirmations == others.filter(|s: OtherSession| agrees(s, own, references, topic)).len()
    &&& c.implementations == others.filter(|s: OtherSession| acts(s, own, references, topic)).len()
}

/// What the other sessions show of a decision.
pub fn gather_evidence(
    others: &Vec<OtherSession>,
    own: &str,
    references: &Vec<String>,
    topic: &Topic,
) -> (r: CrossEvidence)
    ensures
        is_evidence_of(r, others@, own@, views(references@), *topic),
{
    let mut sum = CrossEvidence { confirmations: 0, implementations: 0 };
    let mut i: usize = 0;
    let ghost p = |s: OtherSession| agrees(s, own@, views(references@), *topic);
    let ghost q = |s: OtherSession| acts(s, own@, views(references@), *topic);
    proof {
        assert(others@.take(0).filter(p) =~= Seq::empty());
        assert(others@.take(0).filter(q) =~= Seq::empty());
    }
    while i < others.len()
        invariant
            i <= others@.len(),
            p == (|s: OtherSession| agrees(s, own@, views(references@), *topic)),
            q == (|s: OtherSession| acts(s, own@, views(references@), *topic)),
            sum.confirmations <= i,
            sum.implementations <= i,
            sum.confirmations == others@.take(i as int).filter(p).len(),
            sum.implementations == others@.take(i as int).filter(q).len(),
        decreases others@.len() - i,
    {
        let s = &others[i];
        proof {
            broadcast use Seq::lemma_filter_push;

            assert(others@.take(i + 1) =~= others@.take(i as int).push(*s));
        }
        sum = add_session(sum, s.session_id.as_str(), own, references, &s.entries, topic);
        i = i + 1;
    }
    proof {
        assert(others@.take(i as int) =~= others@);
    }
    sum
}

/// What the sessions show of a decision: `signals` are what its own session and those that it
/// refers to show, `cross` is what the other sessions show.
pub open spec fn shows(
    signals: Signals,
    cross: CrossEvidence,
    d: Decision,
    own: Seq<char>,
    entries: Seq<LogEntry>,
    others: Seq<OtherSession>,
) -> bool {
    exists|topic: Topic|
        {
            let m = entries.filter(on_main_thread());
            &&& topic.title_lower@ == lowercase(d.title@)
            &&& views(topic.keywords@) == keywords_of(lowercase(d.title@))
            &&& signals.confirmation == confirmation(m, topic)
            &&& signals.implementation == implementation(m, topic)
            &&& signals.options == deliberation(m, topic)
            &&& signals.correction == correction(m, topic)
            &&& #[trigger] is_evidence_of(cross, others, own, views(d.references@), topic)
        }
}

/// The score of a decision, in hundredths: what its own session and those that it refers to show
/// of it, what the other sessions show, and where it stands.
pub open spec fn is_score_of(
    r: int,
    d: Decision,
    own: Seq<char>,
    entries: Seq<LogEntry>,
    others: Seq<OtherSession>,
) -> bool {
    exists|signals: Signals, cross: CrossEvidence|
        #![trigger score(signals, cross, d.status)]
        shows(signals, cross, d, own, entries, others) && r == score(signals, cross, d.status)
}

/// What the sessions show of a decision, and its score in hundredths.
#[derive(Debug, Clone, Copy, PartialEq, Eq)]
pub struct NewScore {
    /// What its own session and those that it refers to show.
    pub signals: Signals,
    /// What the other sessions show.
    pub cross: CrossEvidence,
    /// The score.
    pub hundredths: i32,
}

/// What the sessions show of a decision, and its score. `own` is its session; `entries` are those
/// of that session and of the sessions that it refers to.
pub fn weigh_decision(
    d: &Decision,
    own: &str,
    entries: &Vec<LogEntry>,
    others: &Vec<OtherSession>,
) -> (r: NewScore)
    ensures
        shows(r.signals, r.cross, *d, own@, entries@, others@),
        r.hundredths == score(r.signals, r.cross, d.status),
        is_score_of(r.hundredths as int, *d, own@, entries@, others@),
        0 <= r.hundredths <= 100,
{
    let topic = topic_of(d.title.as_str());
    let signals = find_signals(entries, &topic);
    let cross = gather_evidence(others, own, &d.references, &topic);
    let hundredths = score_hundredths(signals, cross, d.status);
    proof {
        scores_stay_in_range(signals, cross, d.status);
        assert(is_evidence_of(cross, others@, own@, views(d.references@), topic));
        assert(shows(signals, cross, *d, own@, entries@, others@));
    }
    NewScore { signals, cross, hundredths }
}

/// The score of a decision, in hundredths. `own` is its session; `entries` are those of that
/// session and of the sessions that it refers to.
pub fn score_decision(
    d: &Decision,
    own: &str,
    entries: &Vec<LogEntry>,
    others: &Vec<OtherSession>,
) -> (r: i32)
    ensures
        is_score_of(r as int, *d, own@, entries@, others@),
        0 <= r <= 100,
{
    weigh_decision(d, own, entries, others).hundredths
}

/// What came of a decision that was to be scored.
#[derive(Debug, Clone, Copy, PartialEq, Eq)]
pub enum Scored {
    /// It names no session.
    NoSession,
    /// Its session is not there or cannot be read.
    NotFound,
    /// It has a new score.
    Yes,
}

/// How many decisions were scored, and how many were not.
#[derive(Debug, Clone, Copy, PartialEq, Eq)]
pub struct ScoreTally {
    /// With a new score.
    pub scored: usize,
    /// Without a session.
    pub skipped_no_id: usize,
    /// With a session that is not there.
    pub skipped_not_found: usize,
}

/// The number of decisions of which this came.
pub open spec fn tally_of(outcomes: Seq<Scored>, which: Scored) -> int
    decreases outcomes.len(),
{
    if outcomes.len() == 0 {
        0
    } else {
        tally_of(outcomes.drop_last(), which) + (if outcomes.last() == which {
            1int
        } else {
            0
        })
    }
}

/// A decision after scoring.
#[derive(Debug, Clone, PartialEq, Eq)]
pub struct ScoredDecision {
    /// The decision.
    pub decision: Decision,
    /// What came of it.
    pub outcome: Scored,
    /// Its new score, where it has one.
    pub score: Option<NewScore>,
}

/// What becomes of a decision: without a session, or with one that was not found, it stays as it
/// is. Otherwise it has a new score and the time of its last change is now, and all else stays as
/// it is.
pub open spec fn is_scored(
    r: ScoredDecision,
    d: Decision,
    entries: Option<Vec<LogEntry>>,
    others: Seq<OtherSession>,
    now: i128,
) -> bool {
    match (d.session_id, entries) {
        (None, _) => r.decision == d && r.outcome is NoSession && r.score is None,
        (Some(_), None) => r.decision == d && r.outcome is NotFound && r.score is None,
        (Some(own), Some(e)) => {
            &&& r.decision == (Decision { updated_at: now, ..d })
            &&& r.outcome is Yes
            &&& r.score matches Some(s) && shows(s.signals, s.cross, d, own@, e@, others)
                && s.hundredths == score(s.signals, s.cross, d.status) && 0 <= s.hundredths <= 100
        },
    }
}

/// All decisions of a project, scored, in their order. With each decision come the entries of its
/// session and of the sessions that it refers to, where its session is there and can be read.
pub fn score_all(
    decisions: Vec<(Decision, Option<Vec<LogEntry>>)>,
    others: &Vec<OtherSession>,
    now: i128,
) -> (r: Vec<ScoredDecision>)
    ensures
        r@.len() == decisions@.len(),
        forall|i: int|
            0 <= i < r@.len() ==> is_scored(
                #[trigger] r@[i],
                decisions@[i].0,
                decisions@[i].1,
                others@,
                now,
            ),
{
    let ghost all = decisions@;
    let mut rest = decisions;
    let mut out: Vec<ScoredDecision> = Vec::new();
    while rest.len() > 0
        invariant
            rest@.len() + out@.len() == all.len(),
            rest@ == all.take(rest@.len() as int),
            forall|k: int|
                0 <= k < out@.len() ==> is_scored(
                    #[trigger] out@[k],
                    all[all.len() - 1 - k].0,
                    all[all.len() - 1 - k].1,
                    others@,
                    now,
                ),
        decreases rest@.len(),
    {
        match rest.pop() {
            Some((d, found)) => {
                let ghost before = (d, found);
                let mut decision = d;
                let mut outcome = Scored::NoSession;
                let mut score: Option<NewScore> = None;
                match &decision.session_id {
                    Some(own) => match &found {
                        Some(entries) => {
                            score = Some(weigh_decision(&decision, own.as_str(), entries, others));
                            outcome = Scored::Yes;
                        },
                        None => {
                            outcome = Scored::NotFound;
                        },
                    },
                    None => {},
                }
                if score.is_some() {
                    decision.updated_at = now;
                }
                out.push(ScoredDecision { decision, outcome, score });
                proof {
                    assert(before == all[all.len() - out@.len()]);
                    assert(is_scored(out@.last(), before.0, before.1, others@, now));
                }
            },
            None => {},
        }
    }
    let r = order::reversed(out);
    proof {
        assert forall|i: int| 0 <= i < r@.len() implies is_scored(
            #[trigger] r@[i],
            all[i].0,
            all[i].1,
            others@,
            now,
        ) by {
            assert(r@[i] == out@[all.len() - 1 - i]);
        }
    }
    r
}

/// Scoring keeps the decisions, their order and all that they say but their score and the time of
/// their last change. It leaves those alone that name no session or whose session was not found,
/// and gives the others a score between nothing and one hundred hundredths.
pub proof fn scoring_keeps_decisions(
    scored: Seq<ScoredDecision>,
    decisions: Seq<(Decision, Option<Vec<LogEntry>>)>,
    others: Seq<OtherSession>,
    now: i128,
)
    requires
        scored.len() == decisions.len(),
        forall|i: int|
            0 <= i < scored.len() ==> is_scored(
                #[trigger] scored[i],
                decisions[i].0,
                decisions[i].1,
                others,
                now,
            ),
    ensures
        forall|i: int|
            0 <= i < scored.len() ==> {
                let (r, (d, found)) = ((#[trigger] scored[i]).decision, decisions[i]);
                &&& r == (Decision { updated_at: r.updated_at, ..d })
                &&& d.session_id is None || found is None ==> r == d && scored[i].score is None
                &&& d.session_id is Some && found is Some ==> r.updated_at == now && (
                scored[i].score matches Some(s) && 0 <= s.hundredths <= 100)
            },
{
}

/// What came of each decision.
pub fn outcomes(scored: &Vec<ScoredDecision>) -> (r: Vec<Scored>)
    ensures
        r@ == scored@.map_values(|s: ScoredDecision| s.outcome),
{
    let mut out: Vec<Scored> = Vec::new();
    let mut i: usize = 0;
    while i < scored.len()
        invariant
            i <= scored@.len(),
            out@ == scored@.take(i as int).map_values(|s: ScoredDecision| s.outcome),
        decreases scored@.len() - i,
    {
        out.push(scored[i].outcome);
        i = i + 1;
    }
    proof {
        assert(scored@.take(i as int) =~= scored@);
    }
    out
}

/// How many decisions were scored, and how many were not.
pub fn tally(outcomes: &Vec<Scored>) -> (r: ScoreTally)
    ensures
        r.scored == tally_of(outcomes@, Scored::Yes),
        r.skipped_no_id == tally_of(outcomes@, Scored::NoSession),
        r.skipped_not_found == tally_of(outcomes@, Scored::NotFound),
        r.scored + r.skipped_no_id + r.skipped_not_found == outcomes@.len(),
{
    let mut t = ScoreTally { scored: 0, skipped_no_id: 0, skipped_not_found: 0 };
    let mut i: usize = 0;
    proof {
        assert(outcomes@.take(0) =~= Seq::empty());
    }
    while i < outcomes.len()
        invariant
            i <= outcomes@.len(),
            t.scored + t.skipped_no_id + t.skipped_not_found == i,
            t.scored == tally_of(outcomes@.take(i as int), Scored::Yes),
            t.skipped_no_id == tally_of(outcomes@.take(i as int), Scored::NoSession),
            t.skipped_not_found == tally_of(outcomes@.take(i as int), Scored::NotFound),
        decreases outcomes@.len() - i,
    {
        proof {
            let next = outcomes@.take(i + 1);
            assert(next.drop_last() =~= outcomes@.take(i as int));
            assert(next.last() == outcomes@[i as int]);
        }
        match outcomes[i] {
            Scored::Yes => {
                t.scored = t.scored + 1;
            },
            Scored::NoSession => {
                t.skipped_no_id = t.skipped_no_id + 1;
            },
            Scored::NotFound => {
                t.skipped_not_found = t.skipped_not_found + 1;
            },
        }
        i = i + 1;
    }
    proof {
        assert(outcomes@.take(i as int) =~= outcomes@);
    }
    t
}

/// What is said of the decisions that were not scored.
pub open spec fn skip_parts(t: ScoreTally) -> Seq<Seq<char>> {
    (if t.skipped_no_id > 0 {
        seq![decimal(t.skipped_no_id as nat) + " no session_id"@]
    } else {
        Seq::empty()
    }) + (if t.skipped_not_found > 0 {
        seq![decimal(t.skipped_not_found as nat) + " session not found"@]
    } else {
        Seq::empty()
    })
}

/// The line of a decision with its new score.
pub open spec fn scored_line(d: Decision) -> Seq<char> {
    "  ["@ + marker(d.status) + "] #"@ + decimal(d.id as nat) + ": "@ + d.title@ + " → "@
        + d.percent@ + "%"@
}

fn write_scored(d: &Decision) -> (r: String)
    ensures
        r@ == scored_line(*d),
{
    let sign = write_marker(d.status);
    let digits = text::number(d.id);
    let head = text::cat5("  [", sign.as_str(), "] #", digits.as_str(), ": ");
    text::cat5(head.as_str(), d.title.as_str(), " → ", d.percent.as_str(), "%")
}

/// What scoring prints.
pub open spec fn score_lines(decisions: Seq<Decision>, t: ScoreTally) -> Seq<Seq<char>> {
    seq![
        "Auto-scored "@ + decimal(t.scored as nat) + " decision(s)"@ + (if skip_parts(t).len()
            == 0 {
            Seq::empty()
        } else {
            " (skipped: "@ + joined(skip_parts(t), ", "@) + ")"@
        }) + ":"@,
        ""@,
    ] + decisions.map_values(|d: Decision| scored_line(d))
}

/// What scoring prints.
pub fn print_scores(decisions: &Vec<Decision>, t: &ScoreTally) -> (r: Vec<String>)
    ensures
        views(r@) == score_lines(decisions@, *t),
{
    let mut parts: Vec<String> = Vec::new();
    proof {
        assert(views(parts@) =~= Seq::empty());
    }
    if t.skipped_no_id > 0 {
        let digits = text::size(t.skipped_no_id);
        text::say2(&mut parts, digits.as_str(), " no session_id");
    }
    if t.skipped_not_found > 0 {
        let digits = text::size(t.skipped_not_found);
        text::say2(&mut parts, digits.as_str(), " session not found");
    }
    proof {
        assert(views(parts@) =~= skip_parts(*t));
    }
    let note: String = if parts.len() == 0 {
        String::new()
    } else {
        let all = text::join(&parts, ", ");
        text::cat3(" (skipped: ", all.as_str(), ")")
    };
    let mut out: Vec<String> = Vec::new();
    let digits = text::size(t.scored);
    text::say5(&mut out, "Auto-scored ", digits.as_str(), " decision(s)", note.as_str(), ":");
    text::say(&mut out, "");
    text::say_each(&mut out, decisions, write_scored, Ghost(|d: Decision| scored_line(d)));
    proof {
        assert(views(out@) =~= score_lines(decisions@, *t));
    }
    out
}

// ---------------------------------------------------------------------------
// Writing all out
// ---------------------------------------------------------------------------

/// The short forms of some ids.
pub open spec fn id_heads(ids: Seq<String>) -> Seq<Seq<char>> {
    ids.map_values(|s: String| id_head(s@))
}

/// What is said below a decision.
pub open spec fn meta_parts(d: Decision) -> Seq<Seq<char>> {
    seq!["Confidence: "@ + d.percent@ + "%"@] + (if d.tags@.len() == 0 {
        Seq::empty()
    } else {
        seq!["Tags: "@ + joined(views(d.tags@), ", "@)]
    }) + (match d.session_id {
        Some(s) => seq!["Session: "@ + id_head(s@)],
        None => Seq::empty(),
    }) + (if d.references@.len() == 0 {
        Seq::empty()
    } else {
        seq!["Related: "@ + joined(id_heads(d.references@), ", "@)]
    }) + (match d.superseded_by {
        Some(by) => seq!["Superseded by: #"@ + decimal(by as nat)],
        None => Seq::empty(),
    })
}

/// The section of a decision.
pub open spec fn section_lines(d: Decision) -> Seq<Seq<char>> {
    seq!["### #"@ + decimal(d.id as nat) + ": "@ + d.title@] + (match d.description {
        Some(t) => seq![""@, t@],
        None => Seq::empty(),
    }) + seq![""@, "_"@ + joined(meta_parts(d), " | "@) + "_"@, ""@]
}

/// The decisions of one status, under its name; nothing where there are none.
pub open spec fn group_lines(decisions: Seq<Decision>, status: DecisionStatus, name: Seq<char>) -> Seq<
    Seq<char>,
> {
    let group = decisions.filter(of_status(Some(status)));
    if group.len() == 0 {
        Seq::empty()
    } else {
        seq!["## "@ + name, ""@] + text::spread(group, |d: Decision| section_lines(d))
    }
}

/// All decisions, by status in the order of their names.
pub open spec fn export_lines(decisions: Seq<Decision>, project_path: Seq<char>) -> Seq<Seq<char>> {
    seq!["# Decisions — "@ + project_path, ""@] + group_lines(
        decisions,
        DecisionStatus::Abandoned,
        "Abandoned"@,
    ) + group_lines(decisions, DecisionStatus::Confirmed, "Confirmed"@) + group_lines(
        decisions,
        DecisionStatus::Proposed,
        "Proposed"@,
    ) + group_lines(decisions, DecisionStatus::Superseded, "Superseded"@)
}

fn write_meta(d: &Decision) -> (r: Vec<String>)
    requires
        can_be_shown(*d),
    ensures
        views(r@) == meta_parts(*d),
{
    let mut out: Vec<String> = Vec::new();
    text::say3(&mut out, "Confidence: ", d.percent.as_str(), "%");
    if d.tags.len() > 0 {
        let tags = text::join(&d.tags, ", ");
        text::say2(&mut out, "Tags: ", tags.as_str());
    }
    match &d.session_id {
        Some(s) => {
            let short = helpers::short_id(s.as_str());
            text::say2(&mut out, "Session: ", short.as_str());
        },
        None => {},
    }
    if d.references.len() > 0 {
        let mut shorts: Vec<String> = Vec::new();
        let head = |s: &String| -> (o: String)
            requires
                has_short_id(s@),
            ensures
                o@ == id_head(s@),
            { helpers::short_id(s.as_str()) };
        let ghost g = |s: String| id_head(s@);
        text::say_each(&mut shorts, &d.references, head, Ghost(g));
        proof {
            assert(views(shorts@) =~= id_heads(d.references@));
        }
        let all = text::join(&shorts, ", ");
        text::say2(&mut out, "Related: ", all.as_str());
    }
    match d.superseded_by {
        Some(by) => {
            let digits = text::number(by);
            text::say2(&mut out, "Superseded by: #", digits.as_str());
        },
        None => {},
    }
    proof {
        assert(views(out@) =~= meta_parts(*d));
    }
    out
}

fn write_section(d: &Decision) -> (r: Vec<String>)
    requires
        can_be_shown(*d),
    ensures
        views(r@) == section_lines(*d),
{
    let mut out: Vec<String> = Vec::new();
    let digits = text::number(d.id);
    text::say4(&mut out, "### #", digits.as_str(), ": ", d.title.as_str());
    match &d.description {
        Some(t) => {
            text::say(&mut out, "");
            text::say(&mut out, t.as_str());
        },
        None => {},
    }
    let meta = write_meta(d);
    let told = text::join(&meta, " | ");
    text::say(&mut out, "");
    text::say3(&mut out, "_", told.as_str(), "_");
    text::say(&mut out, "");
    proof {
        assert(views(out@) =~= section_lines(*d));
    }
    out
}

fn say_group(
    out: &mut Vec<String>,
    decisions: &Vec<Decision>,
    status: DecisionStatus,
    name: &str,
)
    requires
        forall|i: int| 0 <= i < decisions@.len() ==> can_be_shown(#[trigger] decisions@[i]),
    ensures
        views(final(out)@) == views(old(out)@) + group_lines(decisions@, status, name@),
{
    let ghost start = views(out@);
    let mut sections: Vec<String> = Vec::new();
    let mut any: bool = false;
    let mut i: usize = 0;
    let ghost g = |d: Decision| section_lines(d);
    let ghost p = of_status(Some(status));
    proof {
        assert(decisions@.take(0) =~= Seq::empty());
        assert(decisions@.take(0).filter(p) =~= Seq::empty());
        assert(views(sections@) =~= Seq::empty());
    }
    while i < decisions.len()
        invariant
            i <= decisions@.len(),
            forall|i: int| 0 <= i < decisions@.len() ==> can_be_shown(#[trigger] decisions@[i]),
            p == of_status(Some(status)),
            g == (|d: Decision| section_lines(d)),
            views(sections@) == text::spread(decisions@.take(i as int).filter(p), g),
            any == (decisions@.take(i as int).filter(p).len() > 0),
        decreases decisions@.len() - i,
    {
        let d = &decisions[i];
        proof {
            broadcast use Seq::lemma_filter_push;

            assert(decisions@.take(i + 1) =~= decisions@.take(i as int).push(*d));
        }
        if d.status == status {
            any = true;
            let more = write_section(d);
            proof {
                let before = decisions@.take(i as int).filter(p);
                let after = before.push(*d);
                assert(after.drop_last() =~= before);
                assert(after.last() == *d);
            }
            text::say_more(&mut sections, more);
        }
        i = i + 1;
    }
    proof {
        assert(decisions@.take(i as int) =~= decisions@);
    }
    if any {
        text::say2(out, "## ", name);
        text::say(out, "");
        text::say_more(out, sections);
    }
    proof {
        assert(views(out@) =~= start + group_lines(decisions@, status, name@));
    }
}

/// All decisions, by status in the order of their names.
pub fn print_export(decisions: &Vec<Decision>, project_path: &str) -> (r: Vec<String>)
    requires
        forall|i: int| 0 <= i < decisions@.len() ==> can_be_shown(#[trigger] decisions@[i]),
    ensures
        views(r@) == export_lines(decisions@, project_path@),
{
    let mut out: Vec<String> = Vec::new();
    text::say2(&mut out, "# Decisions — ", project_path);
    text::say(&mut out, "");
    proof {
        assert(views(out@) =~= seq!["# Decisions — "@ + project_path@, ""@]);
    }
    say_group(&mut out, decisions, DecisionStatus::Abandoned, "Abandoned");
    say_group(&mut out, decisions, DecisionStatus::Confirmed, "Confirmed");
    say_group(&mut out, decisions, DecisionStatus::Proposed, "Proposed");
    say_group(&mut out, decisions, DecisionStatus::Superseded, "Superseded");
    out
}

// ---------------------------------------------------------------------------
// What was done
// ---------------------------------------------------------------------------

/// The place of the first decision with a number; the number of decisions where there is none.
pub open spec fn decision_place(decisions: Seq<Decision>, id: u64) -> int
    decreases decisions.len(),
{
    if decisions.len() == 0 || decisions[0].id == id {
        0
    } else {
        1 + decision_place(decisions.drop_first(), id)
    }
}

proof fn lemma_decision_place(decisions: Seq<Decision>, id: u64, k: int)
    requires
        0 <= k <= decisions.len(),
        forall|j: int| 0 <= j < k ==> (#[trigger] decisions[j]).id != id,
        k < decisions.len() ==> decisions[k].id == id,
    ensures
        decision_place(decisions, id) == k,
    decreases k,
{
    if k > 0 {
        assert(decisions[0].id != id);
        let rest = decisions.drop_first();
        assert(forall|j: int| 0 <= j < rest.len() ==> rest[j] == decisions[j + 1]);
        lemma_decision_place(rest, id, k - 1);
    }
}

/// The title of the decision with a number; a question mark where there is none.
pub open spec fn title_of(decisions: Seq<Decision>, id: u64) -> Seq<char> {
    let k = decision_place(decisions, id);
    if k < decisions.len() {
        decisions[k].title@
    } else {
        "?"@
    }
}

/// The first decision with a number.
pub fn find_decision(decisions: &Vec<Decision>, id: u64) -> (r: Option<&Decision>)
    ensures
        match r {
            Some(d) => {
                let k = decision_place(decisions@, id);
                k < decisions@.len() && *d == decisions@[k] && d.id == id
            },
            None => decision_place(decisions@, id) == decisions@.len(),
        },
{
    let mut i: usize = 0;
    while i < decisions.len() && decisions[i].id != id
        invariant
            i <= decisions@.len(),
            forall|j: int| 0 <= j < i ==> (#[trigger] decisions@[j]).id != id,
        decreases decisions@.len() - i,
    {
        i = i + 1;
    }
    proof {
        lemma_decision_place(decisions@, id, i as int);
    }
    if i < decisions.len() {
        Some(&decisions[i])
    } else {
        None
    }
}

fn write_title(decisions: &Vec<Decision>, id: u64) -> (r: String)
    ensures
        r@ == title_of(decisions@, id),
{
    match find_decision(decisions, id) {
        Some(d) => d.title.clone(),
        None => "?".to_owned(),
    }
}

/// What is said of a decision that was added.
pub fn added_line(id: u64, title: &str) -> (r: String)
    ensures
        r@ == "Added decision #"@ + decimal(id as nat) + ": "@ + title@,
{
    let digits = text::number(id);
    text::cat4("Added decision #", digits.as_str(), ": ", title)
}

/// What is said of a decision that was changed.
pub fn updated_line(d: &Decision) -> (r: String)
    ensures
        r@ == "Updated decision #"@ + decimal(d.id as nat) + ": ["@ + d.status_shown@ + "] "@
            + d.title@,
{
    let digits = text::number(d.id);
    let a = text::cat5("Updated decision #", digits.as_str(), ": [", d.status_shown.as_str(), "] ");
    text::cat2(a.as_str(), d.title.as_str())
}

/// What is said of a decision that was removed.
pub fn removed_line(id: u64) -> (r: String)
    ensures
        r@ == "Removed decision #"@ + decimal(id as nat),
{
    let digits = text::number(id);
    text::cat2("Removed decision #", digits.as_str())
}

/// What is said of a decision that another took the place of.
pub fn superseded_line(decisions: &Vec<Decision>, id: u64, by: u64) -> (r: String)
    ensures
        r@ == "Decision #"@ + decimal(id as nat) + " '"@ + title_of(decisions@, id)
            + "' superseded by #"@ + decimal(by as nat) + " '"@ + title_of(decisions@, by) + "'"@,
{
    let old_title = write_title(decisions, id);
    let new_title = write_title(decisions, by);
    let first = text::number(id);
    let second = text::number(by);
    let a = text::cat5("Decision #", first.as_str(), " '", old_title.as_str(), "' superseded by #");
    text::cat5(a.as_str(), second.as_str(), " '", new_title.as_str(), "'")
}

// ---------------------------------------------------------------------------
// As JSON
// ---------------------------------------------------------------------------

/// The fields of a decision.
pub open spec fn decision_fields(d: Decision) -> Seq<(Seq<char>, JsonView)> {
    seq![
        ("id"@, number_json(d.id as nat)),
        ("title"@, JsonView::Text(d.title@)),
    ] + given_text("description"@, d.description) + seq![
        ("status"@, JsonView::Text(d.status_shown@)),
        ("confidence"@, JsonView::Number(d.confidence@)),
        ("created_at"@, time_json(Some(d.created_at), false)),
        ("updated_at"@, time_json(Some(d.updated_at), false)),
    ] + given_text("session_id"@, d.session_id) + given_number("superseded_by"@, d.superseded_by) + some_texts("tags"@, d.tags@) + some_texts("references"@, d.references@)
}

/// A decision as a JSON object.
pub fn decision_json(d: &Decision) -> (r: Json)
    ensures
        r@ == JsonView::Object(decision_fields(*d)),
{
    let mut fields: Vec<(String, Json)> = Vec::new();
    let ghost before0 = fields_view(fields@);
    json::put(&mut fields, "id", json::of_number(d.id));
    json::put(&mut fields, "title", json::of_text(d.title.as_str()));
    proof {
        assert(fields_view(fields@) =~= before0 + seq![
            ("id"@, number_json(d.id as nat)),
            ("title"@, JsonView::Text(d.title@)),
        ]);
    }
    json::put_given_text(&mut fields, "description", &d.description);
    let ghost before2 = fields_view(fields@);
    json::put(&mut fields, "status", json::of_text(d.status_shown.as_str()));
    json::put(&mut fields, "confidence", Json::Number(d.confidence.clone()));
    json::put(&mut fields, "created_at", json::of_time(Some(d.created_at), false));
    json::put(&mut fields, "updated_at", json::of_time(Some(d.updated_at), false));
    proof {
        assert(fields_view(fields@) =~= before2 + seq![
            ("status"@, JsonView::Text(d.status_shown@)),
            ("confidence"@, JsonView::Number(d.confidence@)),
            ("created_at"@, time_json(Some(d.created_at), false)),
            ("updated_at"@, time_json(Some(d.updated_at), false)),
        ]);
    }
    json::put_given_text(&mut fields, "session_id", &d.session_id);
    json::put_given_number(&mut fields, "superseded_by", d.superseded_by);
    json::put_some_texts(&mut fields, "tags", &d.tags);
    json::put_some_texts(&mut fields, "references", &d.references);
    proof {
        assert(fields_view(fields@) =~= decision_fields(*d));
    }
    Json::Object(fields)
}

/// Decisions as a list of JSON objects.
pub open spec fn decisions_view(decisions: Seq<Decision>) -> JsonView {
    JsonView::Array(decisions.map_values(|d: Decision| JsonView::Object(decision_fields(d))))
}

/// All decisions, as a JSON list.
pub fn export_json(decisions: &Vec<Decision>) -> (r: Json)
    ensures
        r@ == decisions_view(decisions@),
{
    let ghost g = |d: Decision| JsonView::Object(decision_fields(d));
    json::of_list(decisions, decision_json, Ghost(g))
}

/// The decisions that were found, as a JSON object.
pub fn list_json(project_path: &str, found: &Vec<Decision>) -> (r: Json)
    ensures
        r@ == JsonView::Object(
            seq![
                ("project_path"@, JsonView::Text(project_path@)),
                ("decisions"@, decisions_view(found@)),
            ],
        ),
{
    let mut fields: Vec<(String, Json)> = Vec::new();
    json::put(&mut fields, "project_path", json::of_text(project_path));
    json::put(&mut fields, "decisions", export_json(found));
    proof {
        assert(fields_view(fields@) =~= seq![
            ("project_path"@, JsonView::Text(project_path@)),
            ("decisions"@, decisions_view(found@)),
        ]);
    }
    Json::Object(fields)
}

/// The fields of what scoring came to.
pub open spec fn score_fields(project_path: Seq<char>, t: ScoreTally, decisions: Seq<Decision>) -> Seq<
    (Seq<char>, JsonView),
> {
    seq![
        ("operation"@, JsonView::Text("score"@)),
        ("project_path"@, JsonView::Text(project_path)),
        ("scored"@, number_json(t.scored as nat)),
        ("skipped_no_session_id"@, number_json(t.skipped_no_id as nat)),
        ("skipped_session_not_found"@, number_json(t.skipped_not_found as nat)),
        ("decisions"@, decisions_view(decisions)),
    ]
}

/// What scoring came to, as a JSON object.
pub fn score_json(project_path: &str, t: &ScoreTally, decisions: &Vec<Decision>) -> (r: Json)
    ensures
        r@ == JsonView::Object(score_fields(project_path@, *t, decisions@)),
{
    let mut fields: Vec<(String, Json)> = Vec::new();
    json::put(&mut fields, "operation", json::of_text("score"));
    json::put(&mut fields, "project_path", json::of_text(project_path));
    json::put(&mut fields, "scored", json::of_size(t.scored));
    json::put(&mut fields, "skipped_no_session_id", json::of_size(t.skipped_no_id));
    json::put(
        &mut fields,
        "skipped_session_not_found",
        json::of_size(t.skipped_not_found),
    );
    json::put(&mut fields, "decisions", export_json(decisions));
    proof {
        assert(fields_view(fields@) =~= score_fields(project_path@, *t, decisions@));
    }
    Json::Object(fields)
}

/// What was done with a decision.
#[derive(Debug, Clone, Copy, PartialEq, Eq, Structural)]
pub enum DecisionChange {
    /// It was added.
    Add,
    /// It was changed.
    Update,
    /// It was removed.
    Remove,
    /// Another took its place.
    Supersede(u64),
}

/// The name of what was done with a decision.
pub open spec fn change_name(change: DecisionChange) -> Seq<char> {
    match change {
        DecisionChange::Add => "add"@,
        DecisionChange::Update => "update"@,
        DecisionChange::Remove => "remove"@,
        DecisionChange::Supersede(_) => "supersede"@,
    }
}

/// What is said of what was done with a decision.
pub open spec fn change_message(change: DecisionChange, id: u64) -> Seq<char> {
    match change {
        DecisionChange::Add => "Added decision #"@ + decimal(id as nat),
        DecisionChange::Update => "Updated decision #"@ + decimal(id as nat),
        DecisionChange::Remove => "Removed decision #"@ + decimal(id as nat),
        DecisionChange::Supersede(by) => "Decision #"@ + decimal(id as nat)
            + " superseded by #"@ + decimal(by as nat),
    }
}

fn write_change(change: DecisionChange, id: u64) -> (r: (String, String))
    ensures
        r.0@ == change_name(change),
        r.1@ == change_message(change, id),
{
    let digits = text::number(id);
    match change {
        DecisionChange::Add => ("add".to_owned(), text::cat2("Added decision #", digits.as_str())),
        DecisionChange::Update => (
            "update".to_owned(),
            text::cat2("Updated decision #", digits.as_str()),
        ),
        DecisionChange::Remove => (
            "remove".to_owned(),
            text::cat2("Removed decision #", digits.as_str()),
        ),
        DecisionChange::Supersede(by) => {
            let other = text::number(by);
            (
                "supersede".to_owned(),
                text::cat4("Decision #", digits.as_str(), " superseded by #", other.as_str()),
            )
        },
    }
}

/// The field of the decision that something was done with.
pub open spec fn changed_decision(decision: Option<Decision>) -> Seq<(Seq<char>, JsonView)> {
    match decision {
        Some(d) => seq![("decision"@, JsonView::Object(decision_fields(d)))],
        None => Seq::empty(),
    }
}

/// What was done with a decision, as a JSON object. `decision` is the decision, where it is
/// still there.
pub fn change_json(
    project_path: &str,
    change: DecisionChange,
    id: u64,
    decision: &Option<Decision>,
) -> (r: Json)
    ensures
        r@ == JsonView::Object(
            seq![
                ("operation"@, JsonView::Text(change_name(change))),
                ("project_path"@, JsonView::Text(project_path@)),
                ("message"@, JsonView::Text(change_message(change, id))),
            ] + changed_decision(*decision),
        ),
{
    let mut fields: Vec<(String, Json)> = Vec::new();
    let (name, message) = write_change(change, id);
    json::put(&mut fields, "operation", json::of_text(name.as_str()));
    json::put(&mut fields, "project_path", json::of_text(project_path));
    json::put(&mut fields, "message", json::of_text(message.as_str()));
    match decision {
        Some(d) => json::put(&mut fields, "decision", decision_json(d)),
        None => {},
    }
    proof {
        assert(fields_view(fields@) =~= seq![
            ("operation"@, JsonView::Text(change_name(change))),
            ("project_path"@, JsonView::Text(project_path@)),
            ("message"@, JsonView::Text(change_message(change, id))),
        ] + changed_decision(*decision));
    }
    Json::Object(fields)
}

/// What is said where there is no decision to score; none where there is one.
pub fn nothing_to_score(count: usize, quiet: bool) -> (r: Option<Vec<String>>)
    ensures
        match r {
            Some(lines) => count == 0 && views(lines@) == (if quiet {
                Seq::empty()
            } else {
                seq!["No decisions to score."@]
            }),
            None => count > 0,
        },
{
    helpers::say_if_empty(count, quiet, "No decisions to score.")
}

/// What is said where there is no decision to export; none where there is one.
pub fn nothing_to_export(count: usize, quiet: bool) -> (r: Option<Vec<String>>)
    ensures
        match r {
            Some(lines) => count == 0 && views(lines@) == (if quiet {
                Seq::empty()
            } else {
                seq!["No decisions to export."@]
            }),
            None => count > 0,
        },
{
    helpers::say_if_empty(count, quiet, "No decisions to export.")
}

// ---------------------------------------------------------------------------
// What is done with decisions
// ---------------------------------------------------------------------------

/// Decisions are listed where nothing else is asked for. One is added exactly where that is asked
/// for with a title, removed where that is asked for with a number, replaced where that is asked for
/// with two numbers, and changed where that is asked for with a number and something to change; a
/// status must be a known one where it matters. Whatever else is asked for is refused.
pub proof fn decisions_change_as_asked(
    args: DecisionsArgs,
    r: Result<DecisionsPlan, SnatchError>,
)
    requires
        plans(args, r),
    ensures
        ({
            let known = args.status matches Some(w) ==> w.status is Some;
            let asked = args.operation;
            &&& (r matches Ok(p) && p is List) <==> (asked is None || asked->0@ == "list"@) && known
            &&& (r matches Ok(p) && p is Add) <==> asked is Some && asked->0@ == "add"@ && args.title
                is Some && known
            &&& (r matches Ok(p) && p is Update) <==> asked is Some && asked->0@ == "update"@
                && args.id is Some && known && (args.status is Some || args.description is Some
                || args.has_confidence || args.tag@.len() > 0 || args.related_sessions@.len() > 0)
            &&& (r matches Ok(p) && p is Remove) <==> asked is Some && asked->0@ == "remove"@
                && args.id is Some
            &&& (r matches Ok(p) && p is Supersede) <==> asked is Some && asked->0@ == "supersede"@
                && args.id is Some && args.superseded_by is Some
            &&& (r matches Ok(p) && p is Score) <==> asked is Some && asked->0@ == "score"@
            &&& (r matches Ok(p) && p is Export) <==> asked is Some && asked->0@ == "export"@
            &&& r matches Ok(DecisionsPlan::List { status }) ==> (status is Some <==> args.status
                is Some) && (args.status matches Some(w) ==> status == w.status)
            &&& r matches Ok(DecisionsPlan::Supersede { id, by }) ==> args.id == Some(id)
                && args.superseded_by == Some(by)
            &&& r matches Ok(DecisionsPlan::Remove { id }) ==> args.id == Some(id)
            &&& r matches Ok(DecisionsPlan::Update { id, status, tags, has_related }) ==> args.id
                == Some(id) && (args.status matches Some(w) ==> status == w.status) && (tags is Some
                <==> args.tag@.len() > 0) && (has_related <==> args.related_sessions@.len() > 0)
        }),
{
    reveal_strlit("list");
    reveal_strlit("add");
    reveal_strlit("update");
    reveal_strlit("remove");
    reveal_strlit("supersede");
    reveal_strlit("score");
    reveal_strlit("export");
    reveal_strlit("import");
    assert("list"@.len() == 4 && "add"@.len() == 3 && "update"@.len() == 6 && "remove"@.len() == 6
        && "supersede"@.len() == 9 && "score"@.len() == 5 && "export"@.len() == 6 && "import"@.len()
        == 6);
    assert("update"@[0] == 'u' && "remove"@[0] == 'r' && "export"@[0] == 'e' && "import"@[0] == 'i');
}

// ---------------------------------------------------------------------------
// What calls hand back
// ---------------------------------------------------------------------------

/// A decision is found by its number: the first that has it, and none if and only if no decision
/// has it.
pub proof fn decisions_are_found_by_number(
    decisions: Vec<Decision>,
    id: u64,
    r: Option<&Decision>,
    k: int,
)
    requires
        0 <= k < decisions@.len(),
        decisions@[k].id == id,
        forall|j: int| 0 <= j < k ==> (#[trigger] decisions@[j]).id != id,
    ensures
        call_ensures(find_decision, (&decisions, id), r) ==> (r matches Some(d) && *d
            == decisions@[k]),
{
    lemma_decision_place(decisions@, id, k);
}

/// A session adds at most one agreement and one step to what is known of a decision, and none at
/// all where no entry of it is left to look at.
pub proof fn sessions_count_once(
    so_far: CrossEvidence,
    session_id: &str,
    own: &str,
    references: Vec<String>,
    entries: Vec<LogEntry>,
    topic: Topic,
    r: CrossEvidence,
)
    ensures
        call_ensures(
            add_session,
            (so_far, session_id, own, &references, &entries, &topic),
            r,
        ) ==> {
            &&& so_far.confirmations <= r.confirmations <= so_far.confirmations + 1
            &&& so_far.implementations <= r.implementations <= so_far.implementations + 1
            &&& session_id@ == own@ ==> r.confirmations == so_far.confirmations
                && r.implementations == so_far.implementations
            &&& views(references@).contains(session_id@) ==> r.confirmations
                == so_far.confirmations && r.implementations == so_far.implementations
        },
{
}

} // verus!
