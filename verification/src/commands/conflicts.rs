//! Decisions that seem to contradict each other: which are shown, and how.
use vstd::prelude::*;

use crate::commands::helpers;
use crate::commands::helpers::{cut_text, has_short_id, id_head};
use crate::json;
use crate::json::{fields_view, time_json, Json, JsonView};
use crate::order;
use crate::order::{first_of_list, in_order, sorted_by, weak_order};
use crate::text;
use crate::text::{decimal, lines_of, padded_left, spread_numbered, views};
use crate::time;
use crate::time::shown_or;

verus! {

/// Two decisions that seem to contradict each other.
#[derive(Debug, Clone, PartialEq, Eq)]
pub struct ConflictPair {
    /// What they are about.
    pub topic: String,
    /// How they were noticed, as shown.
    pub detection: String,
    /// How sure it is: a larger number is surer.
    pub confidence_key: i64,
    /// How sure it is, as a JSON number.
    pub confidence: String,
    /// How sure it is, in percent.
    pub confidence_percent: u32,
    /// When the earlier one was made.
    pub earlier_time: i128,
    /// The session of the earlier one.
    pub earlier_session: String,
    /// What the earlier one says.
    pub earlier_text: String,
    /// When the later one was made.
    pub later_time: i128,
    /// The session of the later one.
    pub later_session: String,
    /// What the later one says.
    pub later_text: String,
}

// ---------------------------------------------------------------------------
// The choice
// ---------------------------------------------------------------------------

/// A contradiction is sure enough.
pub open spec fn is_sure(min_key: i64) -> spec_fn(ConflictPair) -> bool {
    |c: ConflictPair| c.confidence_key >= min_key
}

/// The order of contradictions: the surest first, then the earliest.
pub open spec fn surer_first() -> spec_fn(ConflictPair, ConflictPair) -> bool {
    |a: ConflictPair, b: ConflictPair|
        a.confidence_key > b.confidence_key || (a.confidence_key == b.confidence_key
            && a.earlier_time < b.earlier_time)
}

/// The contradictions that are shown.
pub open spec fn chosen(
    found: Seq<ConflictPair>,
    min_key: i64,
    limit: usize,
    no_limit: bool,
) -> Seq<ConflictPair> {
    let sorted = sorted_by(found.filter(is_sure(min_key)), surer_first());
    if no_limit {
        sorted
    } else {
        first_of_list(sorted, limit as int)
    }
}

fn is_surer(a: &ConflictPair, b: &ConflictPair) -> (r: bool)
    ensures
        r == surer_first()(*a, *b),
{
    let left: i64 = a.confidence_key;
    let right: i64 = b.confidence_key;
    let left_time: i128 = a.earlier_time;
    let right_time: i128 = b.earlier_time;
    left > right || (left == right && left_time < right_time)
}

/// The contradictions that are shown: those that are sure enough, the surest first, and no more
/// than the limit.
pub fn choose_conflicts(
    found: Vec<ConflictPair>,
    min_key: i64,
    limit: usize,
    no_limit: bool,
) -> (r: Vec<ConflictPair>)
    ensures
        r@ == chosen(found@, min_key, limit, no_limit),
{
    let ghost p = is_sure(min_key);
    let test = |c: &ConflictPair| -> (o: bool)
        ensures
            o == p(*c),
        { c.confidence_key >= min_key };
    let sure = order::keep(found, test, Ghost(p));
    let mut sorted = order::sort(sure, is_surer, Ghost(surer_first()));
    let ghost all = sorted@;
    if !no_limit && limit < sorted.len() {
        sorted.truncate(limit);
    }
    proof {
        assert(sorted@ =~= (if no_limit {
            all
        } else {
            first_of_list(all, limit as int)
        }));
    }
    sorted
}

/// The contradictions that are shown stand in order, and each of them was found and is sure
/// enough.
pub proof fn shown_conflicts_are_ordered(
    found: Seq<ConflictPair>,
    min_key: i64,
    limit: usize,
    no_limit: bool,
)
    ensures
        in_order(chosen(found, min_key, limit, no_limit), surer_first()),
        forall|i: int|
            0 <= i < chosen(found, min_key, limit, no_limit).len() ==> is_sure(min_key)(
                #[trigger] chosen(found, min_key, limit, no_limit)[i],
            ) && found.contains(chosen(found, min_key, limit, no_limit)[i]),
{
    let kept = found.filter(is_sure(min_key));
    let sorted = sorted_by(kept, surer_first());
    assert(weak_order(surer_first()));
    order::sorting_orders(kept, surer_first());
    let shown = chosen(found, min_key, limit, no_limit);
    assert forall|i: int| 0 <= i < shown.len() implies is_sure(min_key)(#[trigger] shown[i])
        && found.contains(shown[i]) by {
        assert(shown[i] == sorted[i]);
        assert(sorted.contains(shown[i]));
        order::lemma_sorted_contains(kept, surer_first(), shown[i]);
        order::filtered_items_fit(found, is_sure(min_key), shown[i]);
    }
    assert forall|i: int, j: int| 0 <= i < j < shown.len() implies !surer_first()(
        #[trigger] shown[j],
        #[trigger] shown[i],
    ) by {
        assert(shown[j] == sorted[j] && shown[i] == sorted[i]);
    }
}

/// What is said where nothing is shown.
pub fn print_nothing(has_topic: bool, has_project: bool, quiet: bool) -> (r: Vec<String>)
    ensures
        views(r@) == (if quiet {
            Seq::empty()
        } else if has_topic {
            seq!["No conflicts detected for the specified topic."@]
        } else if has_project {
            seq![
                "No conflicts detected in the decision registry."@,
                "Tip: use --topic <pattern> to search for opposing language across sessions."@,
            ]
        } else {
            seq!["No conflicts detected in the decision registry."@]
        }),
{
    let mut out: Vec<String> = Vec::new();
    if !quiet {
        if has_topic {
            text::say(&mut out, "No conflicts detected for the specified topic.");
        } else {
            text::say(&mut out, "No conflicts detected in the decision registry.");
            if has_project {
                text::say(
                    &mut out,
                    "Tip: use --topic <pattern> to search for opposing language across sessions.",
                );
            }
        }
    }
    proof {
        assert(views(out@) =~= (if quiet {
            Seq::empty()
        } else if has_topic {
            seq!["No conflicts detected for the specified topic."@]
        } else if has_project {
            seq![
                "No conflicts detected in the decision registry."@,
                "Tip: use --topic <pattern> to search for opposing language across sessions."@,
            ]
        } else {
            seq!["No conflicts detected in the decision registry."@]
        }));
    }
    out
}

// ---------------------------------------------------------------------------
// As JSON
// ---------------------------------------------------------------------------

/// One side of a contradiction as a JSON object.
pub open spec fn side_view(timestamp: i128, session: Seq<char>, words: Seq<char>) -> JsonView {
    JsonView::Object(
        seq![
            ("timestamp"@, time_json(Some(timestamp), false)),
            ("session_id"@, JsonView::Text(session)),
            ("text"@, JsonView::Text(words)),
        ],
    )
}

fn side_json(timestamp: i128, session: &str, words: &str) -> (r: Json)
    ensures
        r@ == side_view(timestamp, session@, words@),
{
    let mut fields: Vec<(String, Json)> = Vec::new();
    json::put(&mut fields, "timestamp", json::of_time(Some(timestamp), false));
    json::put(&mut fields, "session_id", json::of_text(session));
    json::put(&mut fields, "text", json::of_text(words));
    proof {
        assert(fields_view(fields@) =~= seq![
            ("timestamp"@, time_json(Some(timestamp), false)),
            ("session_id"@, JsonView::Text(session@)),
            ("text"@, JsonView::Text(words@)),
        ]);
    }
    Json::Object(fields)
}

/// The fields of a contradiction.
pub open spec fn conflict_fields(c: ConflictPair) -> Seq<(Seq<char>, JsonView)> {
    seq![
        ("topic"@, JsonView::Text(c.topic@)),
        ("detection"@, JsonView::Text(c.detection@)),
        ("confidence"@, JsonView::Number(c.confidence@)),
        ("earlier"@, side_view(c.earlier_time, c.earlier_session@, c.earlier_text@)),
        ("later"@, side_view(c.later_time, c.later_session@, c.later_text@)),
    ]
}

fn conflict_json(c: &ConflictPair) -> (r: Json)
    ensures
        r@ == JsonView::Object(conflict_fields(*c)),
{
    let mut fields: Vec<(String, Json)> = Vec::new();
    let earlier = side_json(
        c.earlier_time,
        c.earlier_session.as_str(),
        c.earlier_text.as_str(),
    );
    let later = side_json(
        c.later_time,
        c.later_session.as_str(),
        c.later_text.as_str(),
    );
    json::put(&mut fields, "topic", json::of_text(c.topic.as_str()));
    json::put(&mut fields, "detection", json::of_text(c.detection.as_str()));
    json::put(&mut fields, "confidence", Json::Number(c.confidence.clone()));
    json::put(&mut fields, "earlier", earlier);
    json::put(&mut fields, "later", later);
    proof {
        assert(fields_view(fields@) =~= conflict_fields(*c));
    }
    Json::Object(fields)
}

/// The contradictions as JSON.
pub fn output_json(conflicts: &Vec<ConflictPair>) -> (r: Json)
    ensures
        r@ == JsonView::Array(
            conflicts@.map_values(|c: ConflictPair| JsonView::Object(conflict_fields(c))),
        ),
{
    let ghost g = |c: ConflictPair| JsonView::Object(conflict_fields(c));
    json::of_list(conflicts, conflict_json, Ghost(g))
}

// ---------------------------------------------------------------------------
// For a reader
// ---------------------------------------------------------------------------

/// The sessions of a contradiction can be shown.
pub open spec fn ids_fit(c: ConflictPair) -> bool {
    has_short_id(c.earlier_session@) && has_short_id(c.later_session@)
}

/// What one side says, cut and line by line.
pub open spec fn words_lines(words: Seq<char>) -> Seq<Seq<char>> {
    lines_of(cut_text(words, 300)).map_values(|l: Seq<char>| "      "@ + l)
}

/// The heading of one side.
pub open spec fn side_head(label: Seq<char>, at: i128, session: Seq<char>) -> Seq<char> {
    label + shown_or(Some(at), "%Y-%m-%d"@, ""@) + " ["@ + id_head(session) + "]):"@
}

fn say_side(out: &mut Vec<String>, label: &str, at: i128, session: &str, words: &str)
    requires
        has_short_id(session@),
    ensures
        views(final(out)@) == views(old(out)@).push(side_head(label@, at, session@)) + words_lines(
            words@,
        ),
{
    let date = time::show_or(Some(at), "%Y-%m-%d", "");
    let short = helpers::short_id(session);
    text::say5(out, label, date.as_str(), " [", short.as_str(), "]):");
    let ghost so_far = views(out@);
    let cut = helpers::truncate(words, 300);
    let lines = text::lines(cut.as_str());
    let write = |l: &String| -> (o: String)
        ensures
            o@ == "      "@ + l@,
        { text::cat2("      ", l.as_str()) };
    let ghost g = |l: String| "      "@ + l@;
    text::say_each(out, &lines, write, Ghost(g));
    proof {
        assert(lines@.map_values(g) =~= words_lines(words@));
        assert(views(out@) =~= so_far + words_lines(words@));
    }
}

/// The first line of a contradiction.
pub open spec fn conflict_head(c: ConflictPair) -> Seq<char> {
    "  ["@ + padded_left(decimal(c.confidence_percent as nat), 3) + "%] "@ + c.detection@
        + " | topic: "@ + c.topic@
}

/// The lines of a contradiction, and a rule where others follow.
pub open spec fn conflict_lines(c: ConflictPair, last: bool) -> Seq<Seq<char>> {
    (seq![
        conflict_head(c),
        ""@,
        side_head("    EARLIER ("@, c.earlier_time, c.earlier_session@),
    ] + words_lines(c.earlier_text@)).push(""@).push(
        side_head("    LATER ("@, c.later_time, c.later_session@),
    ) + words_lines(c.later_text@) + (if last {
        Seq::empty()
    } else {
        seq![""@, "  ─────────────────────────────────────────"@, ""@]
    })
}

fn write_conflict(c: &ConflictPair, last: bool) -> (r: Vec<String>)
    requires
        ids_fit(*c),
    ensures
        views(r@) == conflict_lines(*c, last),
{
    let mut out: Vec<String> = Vec::new();
    let digits = text::number(c.confidence_percent as u64);
    let percent = text::pad_left(digits.as_str(), 3);
    let a = text::cat5("  [", percent.as_str(), "%] ", c.detection.as_str(), " | topic: ");
    text::say2(&mut out, a.as_str(), c.topic.as_str());
    text::say(&mut out, "");
    proof {
        assert(views(out@) =~= seq![conflict_head(*c), ""@]);
    }
    say_side(
        &mut out,
        "    EARLIER (",
        c.earlier_time,
        c.earlier_session.as_str(),
        c.earlier_text.as_str(),
    );
    proof {
        assert(seq![conflict_head(*c), ""@].push(
            side_head("    EARLIER ("@, c.earlier_time, c.earlier_session@),
        ) =~= seq![
            conflict_head(*c),
            ""@,
            side_head("    EARLIER ("@, c.earlier_time, c.earlier_session@),
        ]);
    }
    text::say(&mut out, "");
    say_side(
        &mut out,
        "    LATER (",
        c.later_time,
        c.later_session.as_str(),
        c.later_text.as_str(),
    );
    let ghost so_far = views(out@);
    if !last {
        text::say(&mut out, "");
        text::say(&mut out, "  ─────────────────────────────────────────");
        text::say(&mut out, "");
    }
    proof {
        assert(views(out@) =~= so_far + (if last {
            Seq::empty()
        } else {
            seq![""@, "  ─────────────────────────────────────────"@, ""@]
        }));
    }
    out
}

/// The heading of the contradictions.
pub open spec fn heading(count: nat, quiet: bool) -> Seq<Seq<char>> {
    if quiet {
        Seq::empty()
    } else {
        seq![
            "Detected "@ + decimal(count) + " potential conflict"@ + (if count == 1 {
                ""@
            } else {
                "s"@
            }) + ":\n"@,
        ]
    }
}

/// The contradictions, for a reader.
pub open spec fn text_lines(conflicts: Seq<ConflictPair>, quiet: bool) -> Seq<Seq<char>> {
    (heading(conflicts.len(), quiet) + spread_numbered(
        conflicts,
        |i: int, c: ConflictPair| conflict_lines(c, i >= conflicts.len() - 1),
    )).push(""@)
}

/// The contradictions, for a reader.
pub fn output_text(conflicts: &Vec<ConflictPair>, quiet: bool) -> (r: Vec<String>)
    requires
        forall|i: int| 0 <= i < conflicts@.len() ==> ids_fit(#[trigger] conflicts@[i]),
    ensures
        views(r@) == text_lines(conflicts@, quiet),
{
    let mut out: Vec<String> = Vec::new();
    let total: usize = conflicts.len();
    if !quiet {
        let count = text::size(total);
        let plural: &str = if total == 1 {
            ""
        } else {
            "s"
        };
        text::say5(&mut out, "Detected ", count.as_str(), " potential conflict", plural, ":\n");
    }
    proof {
        assert(views(out@) =~= heading(conflicts@.len(), quiet));
    }
    let write = |i: usize, c: &ConflictPair| -> (o: Vec<String>)
        requires
            ids_fit(*c),
        ensures
            views(o@) == conflict_lines(*c, i >= total - 1),
        { write_conflict(c, total == 0 || i >= total - 1) };
    let ghost g = |i: int, c: ConflictPair| conflict_lines(c, i >= conflicts@.len() - 1);
    text::say_numbered(&mut out, conflicts, write, Ghost(g));
    text::say(&mut out, "");
    out
}

// ---------------------------------------------------------------------------
// What is shown first
// ---------------------------------------------------------------------------

/// A conflict is shown only where it is sure enough, and without a limit each such conflict is. The
/// surer one stands first, and of two equally sure the one whose earlier side was said earlier; with
/// a limit, one that is left out is no surer than any that is shown.
pub proof fn surest_conflicts_are_shown(
    found: Seq<ConflictPair>,
    min_key: i64,
    limit: usize,
    no_limit: bool,
)
    ensures
        ({
            let shown = chosen(found, min_key, limit, no_limit);
            &&& !no_limit ==> shown.len() <= limit
            &&& forall|i: int|
                0 <= i < shown.len() ==> found.contains(#[trigger] shown[i]) && min_key
                    <= shown[i].confidence_key
            &&& forall|i: int, j: int|
                0 <= i < j < shown.len() ==> (#[trigger] shown[j]).confidence_key <= (
                #[trigger] shown[i]).confidence_key && (shown[i].confidence_key
                    == shown[j].confidence_key ==> shown[i].earlier_time <= shown[j].earlier_time)
            &&& forall|c: ConflictPair| #[trigger]
                found.contains(c) && c.confidence_key >= min_key && !shown.contains(c)
                    ==> !no_limit && shown.len() == limit && forall|i: int|
                    0 <= i < shown.len() ==> c.confidence_key <= (
                    #[trigger] shown[i]).confidence_key
        }),
{
    let lt = surer_first();
    let kept = found.filter(is_sure(min_key));
    let k = if no_limit {
        kept.len() as int
    } else {
        limit as int
    };
    let shown = chosen(found, min_key, limit, no_limit);
    order::filtering_is_exact(found, is_sure(min_key));
    order::first_are_foremost(kept, lt, k);
    order::sorting_permutes(kept, lt);
    assert(shown == first_of_list(sorted_by(kept, lt), k));
    assert forall|i: int| 0 <= i < shown.len() implies found.contains(#[trigger] shown[i])
        && min_key <= shown[i].confidence_key by {
        assert(kept.contains(shown[i]));
    }
    assert forall|i: int, j: int| 0 <= i < j < shown.len() implies (
    #[trigger] shown[j]).confidence_key <= (#[trigger] shown[i]).confidence_key && (
    shown[i].confidence_key == shown[j].confidence_key ==> shown[i].earlier_time
        <= shown[j].earlier_time) by {
        assert(!lt(shown[j], shown[i]));
    }
    assert forall|c: ConflictPair| #[trigger]
        found.contains(c) && c.confidence_key >= min_key && !shown.contains(c) implies !no_limit
        && shown.len() == limit && forall|i: int|
        0 <= i < shown.len() ==> c.confidence_key <= (#[trigger] shown[i]).confidence_key by {
        assert(kept.contains(c) <==> found.contains(c) && is_sure(min_key)(c));
        order::lemma_sorted_contains(kept, lt, c);
        if k >= kept.len() {
            assert(shown == sorted_by(kept, lt));
        }
        assert forall|i: int| 0 <= i < shown.len() implies c.confidence_key <= (
        #[trigger] shown[i]).confidence_key by {
            assert(!lt(c, shown[i]));
        }
    }
}

} // verus!
