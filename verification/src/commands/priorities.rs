//! What to work on next: the items in order, for a reader and as JSON.
use vstd::prelude::*;

use crate::host::Host;
use crate::json;
use crate::json::{fields_view, number_json, optional_text, texts_json, Json, JsonView};
use crate::names;
use crate::names::name_set;
use crate::order;
use crate::provider;
use crate::provider::{skipped_json, skipped_view, warning_lines, SkippedProvider};
use crate::text;
use crate::text::{decimal, spread, uppercase, views};

verus! {

/// Something to work on.
#[derive(Debug, Clone, PartialEq, Eq)]
pub struct PriorityItem {
    /// Its place.
    pub rank: usize,
    /// Its kind.
    pub category: String,
    /// What it is.
    pub summary: String,
    /// How much it counts, as a JSON number.
    pub score: String,
    /// How much it counts, as shown.
    pub score_shown: String,
    /// What it is known from.
    pub sources: Vec<String>,
}

/// What to work on next in a project.
#[derive(Debug, Clone, PartialEq, Eq)]
pub struct PriorityReport {
    /// The project.
    pub project: String,
    /// The number of sessions.
    pub sessions_analyzed: usize,
    /// The number of failures.
    pub total_errors: usize,
    /// The number of goals that are still aimed at.
    pub open_goals: usize,
    /// The number of decisions that are only proposed.
    pub proposed_decisions: usize,
    /// What to work on.
    pub priorities: Vec<PriorityItem>,
}

/// Whether providers are asked.
pub fn uses_provider(provider: &Vec<String>) -> (r: bool)
    ensures
        r == (provider@.len() > 0),
{
    provider.len() > 0
}

/// The sign of a kind.
pub open spec fn category_tag(category: Seq<char>) -> Seq<char> {
    if category == "reliability"@ {
        "[RELIABILITY]"@
    } else if category == "stability"@ {
        "[STABILITY]"@
    } else if category == "goal"@ {
        "[GOAL]"@
    } else if category == "decision"@ {
        "[DECISION]"@
    } else {
        "[OTHER]"@
    }
}

fn tag_of(category: &str) -> (r: &'static str)
    ensures
        r@ == category_tag(category@),
{
    if text::same(category, "reliability") {
        "[RELIABILITY]"
    } else if text::same(category, "stability") {
        "[STABILITY]"
    } else if text::same(category, "goal") {
        "[GOAL]"
    } else if text::same(category, "decision") {
        "[DECISION]"
    } else {
        "[OTHER]"
    }
}

/// The first line of an item.
pub open spec fn item_head(item: PriorityItem, tag: Seq<char>) -> Seq<char> {
    "  "@ + decimal(item.rank as nat) + ". "@ + tag + " "@ + item.summary@ + " (score: "@
        + item.score_shown@ + ")"@
}

fn write_head(item: &PriorityItem, tag: &str) -> (r: String)
    ensures
        r@ == item_head(*item, tag@),
{
    let rank = text::size(item.rank);
    let a = text::cat5("  ", rank.as_str(), ". ", tag, " ");
    text::cat5(
        a.as_str(),
        item.summary.as_str(),
        " (score: ",
        item.score_shown.as_str(),
        ")",
    )
}

/// The lines of what an item is known from.
pub open spec fn evidence_lines(sources: Seq<String>) -> Seq<Seq<char>> {
    sources.map_values(|s: String| "     evidence: "@ + s@)
}

fn say_evidence(out: &mut Vec<String>, sources: &Vec<String>)
    ensures
        views(final(out)@) == views(old(out)@) + evidence_lines(sources@),
{
    let write = |s: &String| -> (o: String)
        ensures
            o@ == "     evidence: "@ + s@,
        { text::cat2("     evidence: ", s.as_str()) };
    let ghost g = |s: String| "     evidence: "@ + s@;
    text::say_each(out, sources, write, Ghost(g));
}

/// The lines of an item.
pub open spec fn item_lines(item: PriorityItem) -> Seq<Seq<char>> {
    (seq![item_head(item, category_tag(item.category@))] + evidence_lines(item.sources@)).push(""@)
}

fn write_item(item: &PriorityItem) -> (r: Vec<String>)
    ensures
        views(r@) == item_lines(*item),
{
    let mut out: Vec<String> = Vec::new();
    let head = write_head(item, tag_of(item.category.as_str()));
    text::say(&mut out, head.as_str());
    proof {
        assert(views(out@) =~= seq![item_head(*item, category_tag(item.category@))]);
    }
    say_evidence(&mut out, &item.sources);
    text::say(&mut out, "");
    out
}

/// The first line of a report.
pub open spec fn report_head(p: PriorityReport) -> Seq<char> {
    "Priorities for '"@ + p.project@ + "': "@ + decimal(p.sessions_analyzed as nat)
        + " sessions, "@ + decimal(p.total_errors as nat) + " tool failures, "@ + decimal(
        p.open_goals as nat,
    ) + " open goals, "@ + decimal(p.proposed_decisions as nat) + " proposed decisions\n"@
}

/// What to work on next, for a reader.
pub open spec fn report_lines(p: PriorityReport) -> Seq<Seq<char>> {
    seq![report_head(p)] + (if p.priorities@.len() == 0 {
        seq!["No priority items found."@]
    } else {
        spread(p.priorities@, |i: PriorityItem| item_lines(i))
    })
}

/// What to work on next, for a reader.
pub fn print_report(p: &PriorityReport) -> (r: Vec<String>)
    ensures
        views(r@) == report_lines(*p),
{
    let mut out: Vec<String> = Vec::new();
    let sessions = text::size(p.sessions_analyzed);
    let errors = text::size(p.total_errors);
    let goals = text::size(p.open_goals);
    let decisions = text::size(p.proposed_decisions);
    let a = text::cat5(
        "Priorities for '",
        p.project.as_str(),
        "': ",
        sessions.as_str(),
        " sessions, ",
    );
    let b = text::cat5(
        a.as_str(),
        errors.as_str(),
        " tool failures, ",
        goals.as_str(),
        " open goals, ",
    );
    text::say3(&mut out, b.as_str(), decisions.as_str(), " proposed decisions\n");
    proof {
        assert(views(out@) =~= seq![report_head(*p)]);
    }
    if p.priorities.len() == 0 {
        text::say(&mut out, "No priority items found.");
        proof {
            assert(views(out@) =~= report_lines(*p));
        }
    } else {
        let ghost g = |i: PriorityItem| item_lines(i);
        text::say_all(&mut out, &p.priorities, write_item, Ghost(g));
    }
    out
}

/// An item as a JSON object.
pub open spec fn item_view(item: PriorityItem) -> JsonView {
    JsonView::Object(
        seq![
            ("rank"@, number_json(item.rank as nat)),
            ("category"@, JsonView::Text(item.category@)),
            ("summary"@, JsonView::Text(item.summary@)),
            ("score"@, JsonView::Number(item.score@)),
            ("sources"@, texts_json(views(item.sources@))),
        ],
    )
}

fn item_json(item: &PriorityItem) -> (r: Json)
    ensures
        r@ == item_view(*item),
{
    let mut fields: Vec<(String, Json)> = Vec::new();
    json::put(&mut fields, "rank", json::of_size(item.rank));
    json::put(&mut fields, "category", json::of_text(item.category.as_str()));
    json::put(&mut fields, "summary", json::of_text(item.summary.as_str()));
    json::put(&mut fields, "score", Json::Number(item.score.clone()));
    json::put(&mut fields, "sources", json::of_texts(&item.sources));
    proof {
        assert(fields_view(fields@) =~= seq![
            ("rank"@, number_json(item.rank as nat)),
            ("category"@, JsonView::Text(item.category@)),
            ("summary"@, JsonView::Text(item.summary@)),
            ("score"@, JsonView::Number(item.score@)),
            ("sources"@, texts_json(views(item.sources@))),
        ]);
    }
    Json::Object(fields)
}

/// The items as JSON.
pub open spec fn items_json(items: Seq<PriorityItem>) -> JsonView {
    JsonView::Array(items.map_values(|i: PriorityItem| item_view(i)))
}

/// What to work on next, as a JSON object.
pub fn report_json(p: &PriorityReport) -> (r: Json)
    ensures
        r@ == JsonView::Object(
            seq![
                ("project"@, JsonView::Text(p.project@)),
                ("sessions_analyzed"@, number_json(p.sessions_analyzed as nat)),
                ("total_tool_failures"@, number_json(p.total_errors as nat)),
                ("open_goals"@, number_json(p.open_goals as nat)),
                ("proposed_decisions"@, number_json(p.proposed_decisions as nat)),
                ("priorities"@, items_json(p.priorities@)),
            ],
        ),
{
    let mut fields: Vec<(String, Json)> = Vec::new();
    let ghost g = |i: PriorityItem| item_view(i);
    json::put(&mut fields, "project", json::of_text(p.project.as_str()));
    json::put(&mut fields, "sessions_analyzed", json::of_size(p.sessions_analyzed));
    json::put(&mut fields, "total_tool_failures", json::of_size(p.total_errors));
    json::put(&mut fields, "open_goals", json::of_size(p.open_goals));
    json::put(&mut fields, "proposed_decisions", json::of_size(p.proposed_decisions));
    json::put(&mut fields, "priorities", json::of_list(&p.priorities, item_json, Ghost(g)));
    proof {
        assert(fields_view(fields@) =~= seq![
            ("project"@, JsonView::Text(p.project@)),
            ("sessions_analyzed"@, number_json(p.sessions_analyzed as nat)),
            ("total_tool_failures"@, number_json(p.total_errors as nat)),
            ("open_goals"@, number_json(p.open_goals as nat)),
            ("proposed_decisions"@, number_json(p.proposed_decisions as nat)),
            ("priorities"@, items_json(p.priorities@)),
        ]);
    }
    Json::Object(fields)
}

// ---------------------------------------------------------------------------
// Several providers
// ---------------------------------------------------------------------------

/// The providers that were asked: the selected ones, in order and each once, without those that
/// could not be asked.
pub open spec fn asked_providers(selected: Seq<Seq<char>>, skipped: Seq<Seq<char>>) -> Seq<
    Seq<char>,
> {
    name_set(selected).filter(|p: Seq<char>| !skipped.contains(p))
}

/// The providers that were asked.
pub fn remaining_providers(selected: &Vec<String>, skipped: &Vec<String>) -> (r: Vec<String>)
    ensures
        views(r@) == asked_providers(views(selected@), views(skipped@)),
{
    let all = names::ordered_names(selected);
    let ghost p = |s: String| !views(skipped@).contains(s@);
    let ghost q = |s: Seq<char>| !views(skipped@).contains(s);
    let ghost f = |s: String| s@;
    let test = |s: &String| -> (o: bool)
        ensures
            o == p(*s),
        { !names::holds_name(skipped, s.as_str()) };
    let ghost whole = all@;
    let r = order::keep(all, test, Ghost(p));
    proof {
        order::lemma_filter_map(whole, f, p, q);
        assert(whole.map_values(f) =~= views(whole));
        assert(r@.map_values(f) =~= views(r@));
    }
    r
}

/// What to work on next, by what several providers know.
#[derive(Debug, Clone, PartialEq, Eq)]
pub struct ProviderPriorityReport {
    /// The project.
    pub project: String,
    /// The providers that were asked.
    pub providers: Vec<String>,
    /// The number of sessions.
    pub sessions_analyzed: usize,
    /// The number of stored sessions that they consist of.
    pub session_descriptors_analyzed: usize,
    /// The number of stored sessions whose times were guessed.
    pub date_fallbacks: usize,
    /// The number of failures.
    pub total_errors: usize,
    /// The number of failures that are certain.
    pub confirmed_failures: usize,
    /// The number of signs of failures.
    pub inferred_failures: usize,
    /// The number of goals that are still aimed at, where goals are known.
    pub open_goals: Option<u64>,
    /// The number of decisions that are only proposed, where decisions are known.
    pub proposed_decisions: Option<u64>,
    /// Where goals and decisions are kept.
    pub registry_path: Option<String>,
    /// What to work on.
    pub priorities: Vec<PriorityItem>,
    /// The providers that could not be asked.
    pub skipped: Vec<SkippedProvider>,
    /// Warnings.
    pub warnings: Vec<String>,
}

/// A count, or that it is not known.
pub open spec fn count_or_not(count: Option<u64>) -> Seq<char> {
    match count {
        Some(n) => decimal(n as nat),
        None => "unavailable"@,
    }
}

fn write_count(count: Option<u64>) -> (r: String)
    ensures
        r@ == count_or_not(count),
{
    match count {
        Some(n) => text::number(n),
        None => "unavailable".to_owned(),
    }
}

/// The first line of a report.
pub open spec fn provider_head(p: ProviderPriorityReport) -> Seq<char> {
    "Priorities for '"@ + p.project@ + "': "@ + decimal(p.sessions_analyzed as nat)
        + " logical sessions ("@ + decimal(p.session_descriptors_analyzed as nat)
        + " descriptors), "@ + decimal(p.confirmed_failures as nat) + " confirmed failures, "@
        + decimal(p.inferred_failures as nat) + " inferred signals, "@ + count_or_not(p.open_goals)
        + " open goals, "@ + count_or_not(p.proposed_decisions) + " proposed decisions\n"@
}

fn write_provider_head(p: &ProviderPriorityReport) -> (r: String)
    ensures
        r@ == provider_head(*p),
{
    let sessions = text::size(p.sessions_analyzed);
    let descriptors = text::size(p.session_descriptors_analyzed);
    let confirmed = text::size(p.confirmed_failures);
    let inferred = text::size(p.inferred_failures);
    let goals = write_count(p.open_goals);
    let decisions = write_count(p.proposed_decisions);
    let a = text::cat5(
        "Priorities for '",
        p.project.as_str(),
        "': ",
        sessions.as_str(),
        " logical sessions (",
    );
    let b = text::cat5(
        a.as_str(),
        descriptors.as_str(),
        " descriptors), ",
        confirmed.as_str(),
        " confirmed failures, ",
    );
    let c = text::cat5(
        b.as_str(),
        inferred.as_str(),
        " inferred signals, ",
        goals.as_str(),
        " open goals, ",
    );
    text::cat3(c.as_str(), decisions.as_str(), " proposed decisions\n")
}

/// The lines of an item.
pub open spec fn provider_item_lines(item: PriorityItem) -> Seq<Seq<char>> {
    seq![item_head(item, "["@ + uppercase(item.category@) + "]"@)] + evidence_lines(item.sources@)
}

fn write_provider_item(item: &PriorityItem) -> (r: Vec<String>)
    ensures
        views(r@) == provider_item_lines(*item),
{
    let mut out: Vec<String> = Vec::new();
    let upper = text::to_uppercase(item.category.as_str());
    let tag = text::cat3("[", upper.as_str(), "]");
    let head = write_head(item, tag.as_str());
    text::say(&mut out, head.as_str());
    proof {
        assert(views(out@) =~= seq![item_head(*item, "["@ + uppercase(item.category@) + "]"@)]);
    }
    say_evidence(&mut out, &item.sources);
    out
}

/// What to work on next, for a reader.
pub open spec fn provider_lines(p: ProviderPriorityReport, brand: Seq<char>) -> Seq<Seq<char>> {
    seq![provider_head(p)] + spread(p.priorities@, |i: PriorityItem| provider_item_lines(i)) + (
    if p.open_goals is None || p.proposed_decisions is None {
        seq![
            "\nRegistry priorities unavailable: "@ + brand + " project registry not resolved."@,
        ]
    } else {
        Seq::empty()
    })
}

/// What to work on next, for a reader.
pub fn print_provider_report(p: &ProviderPriorityReport, host: &Host) -> (r: Vec<String>)
    ensures
        views(r@) == provider_lines(*p, host.brand@),
{
    let mut out: Vec<String> = Vec::new();
    let head = write_provider_head(p);
    text::say(&mut out, head.as_str());
    proof {
        assert(views(out@) =~= seq![provider_head(*p)]);
    }
    let ghost g = |i: PriorityItem| provider_item_lines(i);
    text::say_all(&mut out, &p.priorities, write_provider_item, Ghost(g));
    if p.open_goals.is_none() || p.proposed_decisions.is_none() {
        text::say3(
            &mut out,
            "\nRegistry priorities unavailable: ",
            host.brand.as_str(),
            " project registry not resolved.",
        );
    }
    proof {
        assert(views(out@) =~= provider_lines(*p, host.brand@));
    }
    out
}

/// The warnings beside a report.
pub fn print_warnings(p: &ProviderPriorityReport) -> (r: Vec<String>)
    ensures
        views(r@) == warning_lines(p.warnings@, p.skipped@),
{
    provider::write_warnings(&p.warnings, &p.skipped)
}

/// A count, or nothing.
pub open spec fn optional_count(n: Option<u64>) -> JsonView {
    crate::commands::file_history::optional_number(n)
}

/// What is known of goals and decisions.
pub open spec fn registry_view(p: ProviderPriorityReport) -> JsonView {
    JsonView::Object(
        seq![
            ("scope"@, JsonView::Text("claude_project_registry"@)),
            ("goals_available"@, JsonView::Bool(p.open_goals is Some)),
            ("decisions_available"@, JsonView::Bool(p.proposed_decisions is Some)),
            ("project_path"@, optional_text(p.registry_path)),
        ],
    )
}

fn registry_json(p: &ProviderPriorityReport) -> (r: Json)
    ensures
        r@ == registry_view(*p),
{
    let mut fields: Vec<(String, Json)> = Vec::new();
    json::put(&mut fields, "scope", json::of_text("claude_project_registry"));
    json::put(&mut fields, "goals_available", Json::Bool(p.open_goals.is_some()));
    json::put(&mut fields, "decisions_available", Json::Bool(p.proposed_decisions.is_some()));
    json::put(&mut fields, "project_path", json::of_option(&p.registry_path));
    proof {
        assert(fields_view(fields@) =~= seq![
            ("scope"@, JsonView::Text("claude_project_registry"@)),
            ("goals_available"@, JsonView::Bool(p.open_goals is Some)),
            ("decisions_available"@, JsonView::Bool(p.proposed_decisions is Some)),
            ("project_path"@, optional_text(p.registry_path)),
        ]);
    }
    Json::Object(fields)
}

/// The fields of what to work on next.
pub open spec fn provider_fields(p: ProviderPriorityReport, brand: Seq<char>) -> Seq<
    (Seq<char>, JsonView),
> {
    seq![
        ("project"@, JsonView::Text(p.project@)),
        ("providers"@, texts_json(views(p.providers@))),
        ("sessions_analyzed"@, number_json(p.sessions_analyzed as nat)),
        ("session_descriptors_analyzed"@, number_json(p.session_descriptors_analyzed as nat)),
        ("date_filter_fallback_descriptors"@, number_json(p.date_fallbacks as nat)),
        ("total_tool_failures"@, number_json(p.total_errors as nat)),
        ("confirmed_tool_failures"@, number_json(p.confirmed_failures as nat)),
        ("inferred_failure_signals"@, number_json(p.inferred_failures as nat)),
        ("open_goals"@, optional_count(p.open_goals)),
        ("proposed_decisions"@, optional_count(p.proposed_decisions)),
        ("registry_coverage"@, registry_view(p)),
        ("priorities"@, items_json(p.priorities@)),
        (
            "skipped_providers"@,
            JsonView::Array(p.skipped@.map_values(|s: SkippedProvider| skipped_view(s))),
        ),
        ("warnings"@, texts_json(views(p.warnings@))),
        (
            "coverage_note"@,
            JsonView::Text(
                "Reliability uses classified tool outcomes; churn uses source-backed applied patch/snapshot evidence. Registry priorities remain "@
                    + brand + "-project scoped."@,
            ),
        ),
    ]
}

/// What to work on next, as a JSON object.
pub fn provider_report_json(p: &ProviderPriorityReport, host: &Host) -> (r: Json)
    ensures
        r@ == JsonView::Object(provider_fields(*p, host.brand@)),
{
    let mut fields: Vec<(String, Json)> = Vec::new();
    let ghost g = |i: PriorityItem| item_view(i);
    let ghost g2 = |s: SkippedProvider| skipped_view(s);
    let goals = crate::commands::file_history::of_optional_number(p.open_goals);
    let decisions = crate::commands::file_history::of_optional_number(p.proposed_decisions);
    json::put(&mut fields, "project", json::of_text(p.project.as_str()));
    json::put(&mut fields, "providers", json::of_texts(&p.providers));
    json::put(&mut fields, "sessions_analyzed", json::of_size(p.sessions_analyzed));
    json::put(
        &mut fields,
        "session_descriptors_analyzed",
        json::of_size(p.session_descriptors_analyzed),
    );
    json::put(&mut fields, "date_filter_fallback_descriptors", json::of_size(p.date_fallbacks));
    json::put(&mut fields, "total_tool_failures", json::of_size(p.total_errors));
    json::put(&mut fields, "confirmed_tool_failures", json::of_size(p.confirmed_failures));
    json::put(&mut fields, "inferred_failure_signals", json::of_size(p.inferred_failures));
    json::put(&mut fields, "open_goals", goals);
    json::put(&mut fields, "proposed_decisions", decisions);
    json::put(&mut fields, "registry_coverage", registry_json(p));
    json::put(&mut fields, "priorities", json::of_list(&p.priorities, item_json, Ghost(g)));
    json::put(&mut fields, "skipped_providers", json::of_list(&p.skipped, skipped_json, Ghost(g2)));
    json::put(&mut fields, "warnings", json::of_texts(&p.warnings));
    let note = text::cat3(
        "Reliability uses classified tool outcomes; churn uses source-backed applied patch/snapshot evidence. Registry priorities remain ",
        host.brand.as_str(),
        "-project scoped.",
    );
    json::put(&mut fields, "coverage_note", json::of_text(note.as_str()));
    proof {
        assert(fields_view(fields@) =~= provider_fields(*p, host.brand@));
    }
    Json::Object(fields)
}

// ---------------------------------------------------------------------------
// Who was asked
// ---------------------------------------------------------------------------

/// The providers that were asked are those that were selected and not skipped, each once and in
/// order.
pub proof fn skipped_providers_were_not_asked(
    selected: Seq<Seq<char>>,
    skipped: Seq<Seq<char>>,
    p: Seq<char>,
)
    ensures
        asked_providers(selected, skipped).contains(p) <==> selected.contains(p)
            && !skipped.contains(p),
{
    let q = |p: Seq<char>| !skipped.contains(p);
    names::name_set_holds(selected);
    order::filtering_is_exact(name_set(selected), q);
    assert(name_set(selected).contains(p) <==> selected.contains(p));
    assert(name_set(selected).filter(q).contains(p) <==> name_set(selected).contains(p) && q(p));
}

} // verus!
