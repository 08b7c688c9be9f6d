//! The health of a project: the files that changed most, the stability of its decisions, and the
//! failures of tools in each session.
use vstd::prelude::*;

use crate::commands::helpers;
use crate::commands::helpers::{has_short_id, id_head};
use crate::error::{invalid, invalid_argument, SnatchError};
use crate::host::Host;
use crate::json;
use crate::json::{fields_view, number_json, optional_text, texts_json, Json, JsonView};
use crate::names;
use crate::names::name_set;
use crate::provider;
use crate::provider::{skips_json, skips_view, warning_lines, SkippedProvider};
use crate::text;
use crate::text::{decimal, repeated, views};

verus! {

/// Where the sessions are taken from.
#[derive(Debug, Clone, Copy, PartialEq, Eq)]
pub enum HealthRoute {
    /// The providers that are asked for.
    Provider,
    /// The session directory.
    Sessions,
}

/// Where the sessions are taken from.
pub fn run(provider: &Vec<String>) -> (r: HealthRoute)
    ensures
        r == (if provider@.len() > 0 {
            HealthRoute::Provider
        } else {
            HealthRoute::Sessions
        }),
{
    if provider.len() > 0 {
        HealthRoute::Provider
    } else {
        HealthRoute::Sessions
    }
}

/// A session that could not be analyzed.
#[derive(Debug, Clone, PartialEq, Eq)]
pub struct AnalysisError {
    /// Its qualified id.
    pub key: String,
    /// Why.
    pub reason: String,
}

/// Whether the analysis holds though some sessions could not be analyzed: where exactly these
/// sessions were asked for, it does not.
pub fn accept_errors(atomic: bool, errors: &Vec<AnalysisError>) -> (r: Result<(), SnatchError>)
    ensures
        if atomic && errors@.len() > 0 {
            r matches Err(e) && e@ == invalid(
                errors@[0].key@,
                "selected session could not be analyzed: "@ + errors@[0].reason@,
            )
        } else {
            r is Ok
        },
{
    if atomic && errors.len() > 0 {
        return Err(
            invalid_argument(
                errors[0].key.as_str(),
                text::cat2(
                    "selected session could not be analyzed: ",
                    errors[0].reason.as_str(),
                ),
            ),
        );
    }
    Ok(())
}

/// The warning that a session could not be analyzed.
pub open spec fn error_warning(e: AnalysisError) -> Seq<char> {
    e.key@ + ": session could not be analyzed"@
}

/// All warnings: those of the visit, one for each session that could not be analyzed, and one
/// where times were guessed.
pub open spec fn all_warnings(
    visit: Seq<Seq<char>>,
    errors: Seq<AnalysisError>,
    fallbacks: usize,
) -> Seq<Seq<char>> {
    visit + errors.map_values(|e: AnalysisError| error_warning(e)) + (if fallbacks > 0 {
        seq![crate::commands::prompts::fallback_warning(fallbacks)]
    } else {
        Seq::empty()
    })
}

fn write_error_warning(e: &AnalysisError) -> (r: String)
    ensures
        r@ == error_warning(*e),
{
    text::cat2(e.key.as_str(), ": session could not be analyzed")
}

/// The warnings, in order and each once.
pub fn collect_warnings(visit: Vec<String>, errors: &Vec<AnalysisError>, fallbacks: usize) -> (r:
    Vec<String>)
    ensures
        views(r@) == name_set(all_warnings(views(visit@), errors@, fallbacks)),
{
    let ghost start = views(visit@);
    let mut all = visit;
    text::say_each(
        &mut all,
        errors,
        write_error_warning,
        Ghost(|e: AnalysisError| error_warning(e)),
    );
    if fallbacks > 0 {
        let digits = text::size(fallbacks);
        text::say2(
            &mut all,
            digits.as_str(),
            " session descriptors used conservative source-time evidence for date filtering",
        );
    }
    proof {
        assert(views(all@) =~= all_warnings(start, errors@, fallbacks));
    }
    names::ordered_names(&all)
}

// ---------------------------------------------------------------------------
// The report
// ---------------------------------------------------------------------------

/// How often a file changed.
#[derive(Debug, Clone, PartialEq, Eq)]
pub struct FileChurn {
    /// Its path.
    pub path: String,
    /// The number of changes or versions.
    pub count: usize,
    /// The number of sessions that changed it.
    pub session_count: usize,
}

/// How stable the decisions are.
#[derive(Debug, Clone, Copy, PartialEq, Eq)]
pub struct DecisionChurn {
    /// All decisions.
    pub total: usize,
    /// Those that were confirmed.
    pub confirmed: usize,
    /// Those that others took the place of.
    pub superseded: usize,
    /// Those that were given up.
    pub abandoned: usize,
    /// Those that were proposed.
    pub proposed: usize,
}

/// The numbers of a session.
#[derive(Debug, Clone, PartialEq, Eq)]
pub struct SessionStat {
    /// Its id.
    pub session_id: String,
    /// Its time.
    pub timestamp: Option<String>,
    /// The number of failures.
    pub error_count: usize,
    /// The number of calls of tools.
    pub tool_count: usize,
}

/// The health of a project.
#[derive(Debug, Clone, PartialEq, Eq)]
pub struct HealthReport {
    /// The number of sessions.
    pub sessions_analyzed: usize,
    /// The number of stored sessions that they consist of.
    pub descriptors: usize,
    /// The number of failures.
    pub total_errors: usize,
    /// The number of failures that are certain.
    pub confirmed_failures: usize,
    /// The number of signs of failures.
    pub inferred_failures: usize,
    /// The number of calls of tools.
    pub total_tool_calls: usize,
    /// The files that changed most.
    pub hotspots: Vec<FileChurn>,
    /// The files that changed in several sessions.
    pub rework: Vec<FileChurn>,
    /// How stable the decisions are.
    pub churn: Option<DecisionChurn>,
    /// The numbers of each session.
    pub session_stats: Vec<SessionStat>,
}

/// The line of a file.
pub open spec fn churn_line(f: FileChurn, what: Seq<char>, sessions: Seq<char>) -> Seq<char> {
    "  "@ + f.path@ + " — "@ + decimal(f.count as nat) + what + decimal(f.session_count as nat)
        + sessions
}

/// A heading, a rule and the lines of some files, and a blank line; nothing where there are none.
pub open spec fn churn_lines(
    files: Seq<FileChurn>,
    title: Seq<char>,
    what: Seq<char>,
    sessions: Seq<char>,
) -> Seq<Seq<char>> {
    if files.len() == 0 {
        Seq::empty()
    } else {
        seq![title, repeated('-', 60)] + files.map_values(
            |f: FileChurn| churn_line(f, what, sessions),
        ) + seq![""@]
    }
}

/// The line of the decisions.
pub open spec fn decision_line(c: DecisionChurn) -> Seq<char> {
    "  "@ + decimal(c.total as nat) + " total | "@ + decimal(c.confirmed as nat)
        + " confirmed | "@ + decimal(c.superseded as nat) + " superseded | "@ + decimal(
        c.abandoned as nat,
    ) + " abandoned | "@ + decimal(c.proposed as nat) + " proposed"@
}

/// The line of a session.
pub open spec fn stat_line(s: SessionStat, whole_id: bool) -> Seq<char> {
    "  ["@ + (if whole_id {
        s.session_id@
    } else {
        id_head(s.session_id@)
    }) + "] "@ + (match s.timestamp {
        Some(t) => t@,
        None => "?"@,
    }) + " — "@ + decimal(s.error_count as nat) + " tool failures, "@ + decimal(
        s.tool_count as nat,
    ) + " tools"@
}

/// A heading, a rule and the lines of the sessions; nothing where there are none.
pub open spec fn stat_lines(stats: Seq<SessionStat>, title: Seq<char>, whole_id: bool) -> Seq<
    Seq<char>,
> {
    if stats.len() == 0 {
        Seq::empty()
    } else {
        seq![title, repeated('-', 60)] + stats.map_values(|s: SessionStat| stat_line(s, whole_id))
    }
}

/// What is printed of the sessions of the session directory.
pub open spec fn session_report(h: HealthReport) -> Seq<Seq<char>> {
    seq![
        "Project health: "@ + decimal(h.sessions_analyzed as nat) + " sessions, "@ + decimal(
            h.total_errors as nat,
        ) + " tool failures, "@ + decimal(h.total_tool_calls as nat) + " tool calls"@,
        ""@,
    ] + churn_lines(
        h.hotspots@,
        "Hotspot Files (most edits):"@,
        " edits across "@,
        " sessions"@,
    ) + churn_lines(
        h.rework@,
        "Rework Files (edited across multiple sessions):"@,
        " versions across "@,
        " sessions"@,
    ) + (match h.churn {
        Some(c) => seq![
            "Decision Stability:"@,
            repeated('-', 60),
            decision_line(c),
            ""@,
        ],
        None => Seq::empty(),
    }) + stat_lines(h.session_stats@, "Per-Session Stats:"@, false)
}

/// What is printed of the sessions of providers.
pub open spec fn provider_report(h: HealthReport, brand: Seq<char>) -> Seq<Seq<char>> {
    seq![
        "Project health: "@ + decimal(h.sessions_analyzed as nat) + " logical sessions ("@
            + decimal(h.descriptors as nat) + " descriptors), "@ + decimal(
            h.confirmed_failures as nat,
        ) + " confirmed tool failures, "@ + decimal(h.inferred_failures as nat)
            + " inferred signals, "@ + decimal(h.total_tool_calls as nat) + " tool calls"@,
        ""@,
        "File churn is limited to source-backed applied patches/snapshots; shell writes are not inferred."@,
        ""@,
    ] + churn_lines(
        h.hotspots@,
        "Hotspot Files (most source-backed edits):"@,
        " edits across "@,
        " logical sessions"@,
    ) + churn_lines(
        h.rework@,
        "Rework Files (edited across multiple logical sessions):"@,
        " versions across "@,
        " logical sessions"@,
    ) + (match h.churn {
        Some(c) => seq![
            "Decision Stability ("@ + brand + " project registry):"@,
            repeated('-', 60),
            decision_line(c),
            ""@,
        ],
        None => seq![
            "Decision stability: unavailable ("@ + brand + " project registry not resolved)"@,
            ""@,
        ],
    }) + stat_lines(h.session_stats@, "Per-Logical-Session Stats:"@, true)
}

fn say_churn(
    out: &mut Vec<String>,
    files: &Vec<FileChurn>,
    title: &str,
    what: &str,
    sessions: &str,
)
    ensures
        views(final(out)@) == views(old(out)@) + churn_lines(files@, title@, what@, sessions@),
{
    let ghost start = views(out@);
    if files.len() > 0 {
        let rule = text::repeat('-', 60);
        text::say(out, title);
        text::say(out, rule.as_str());
        let write = |f: &FileChurn| -> (o: String)
            ensures
                o@ == churn_line(*f, what@, sessions@),
            {
                let count = text::size(f.count);
                let of = text::size(f.session_count);
                let head = text::cat5("  ", f.path.as_str(), " — ", count.as_str(), what);
                text::cat3(head.as_str(), of.as_str(), sessions)
            };
        let ghost g = |f: FileChurn| churn_line(f, what@, sessions@);
        text::say_each(out, files, write, Ghost(g));
        text::say(out, "");
    }
    proof {
        assert(views(out@) =~= start + churn_lines(files@, title@, what@, sessions@));
    }
}

fn write_decisions(c: &DecisionChurn) -> (r: String)
    ensures
        r@ == decision_line(*c),
{
    let total = text::size(c.total);
    let confirmed = text::size(c.confirmed);
    let superseded = text::size(c.superseded);
    let abandoned = text::size(c.abandoned);
    let proposed = text::size(c.proposed);
    let head = text::cat5("  ", total.as_str(), " total | ", confirmed.as_str(), " confirmed | ");
    let middle = text::cat5(
        head.as_str(),
        superseded.as_str(),
        " superseded | ",
        abandoned.as_str(),
        " abandoned | ",
    );
    text::cat3(middle.as_str(), proposed.as_str(), " proposed")
}

fn write_stat(s: &SessionStat, whole_id: bool) -> (r: String)
    requires
        whole_id || has_short_id(s.session_id@),
    ensures
        r@ == stat_line(*s, whole_id),
{
    let id: String = if whole_id {
        s.session_id.clone()
    } else {
        helpers::short_id(s.session_id.as_str())
    };
    let time: String = match &s.timestamp {
        Some(t) => t.clone(),
        None => "?".to_owned(),
    };
    let errors = text::size(s.error_count);
    let tools = text::size(s.tool_count);
    let head = text::cat5("  [", id.as_str(), "] ", time.as_str(), " — ");
    text::cat5(head.as_str(), errors.as_str(), " tool failures, ", tools.as_str(), " tools")
}

fn say_stats(out: &mut Vec<String>, stats: &Vec<SessionStat>, title: &str, whole_id: bool)
    requires
        forall|i: int|
            0 <= i < stats@.len() ==> whole_id || has_short_id((#[trigger] stats@[i]).session_id@),
    ensures
        views(final(out)@) == views(old(out)@) + stat_lines(stats@, title@, whole_id),
{
    let ghost start = views(out@);
    if stats.len() > 0 {
        let rule = text::repeat('-', 60);
        text::say(out, title);
        text::say(out, rule.as_str());
        let write = |s: &SessionStat| -> (o: String)
            requires
                whole_id || has_short_id(s.session_id@),
            ensures
                o@ == stat_line(*s, whole_id),
            { write_stat(s, whole_id) };
        let ghost g = |s: SessionStat| stat_line(s, whole_id);
        text::say_each(out, stats, write, Ghost(g));
    }
    proof {
        assert(views(out@) =~= start + stat_lines(stats@, title@, whole_id));
    }
}

/// What is printed of the sessions of the session directory.
pub fn print_report(h: &HealthReport) -> (r: Vec<String>)
    requires
        forall|i: int|
            0 <= i < h.session_stats@.len() ==> has_short_id(
                (#[trigger] h.session_stats@[i]).session_id@,
            ),
    ensures
        views(r@) == session_report(*h),
{
    let mut out: Vec<String> = Vec::new();
    let sessions = text::size(h.sessions_analyzed);
    let errors = text::size(h.total_errors);
    let calls = text::size(h.total_tool_calls);
    let head = text::cat5(
        "Project health: ",
        sessions.as_str(),
        " sessions, ",
        errors.as_str(),
        " tool failures, ",
    );
    text::say3(&mut out, head.as_str(), calls.as_str(), " tool calls");
    text::say(&mut out, "");
    say_churn(&mut out, &h.hotspots, "Hotspot Files (most edits):", " edits across ", " sessions");
    say_churn(
        &mut out,
        &h.rework,
        "Rework Files (edited across multiple sessions):",
        " versions across ",
        " sessions",
    );
    match &h.churn {
        Some(c) => {
            let rule = text::repeat('-', 60);
            let line = write_decisions(c);
            text::say(&mut out, "Decision Stability:");
            text::say(&mut out, rule.as_str());
            text::say(&mut out, line.as_str());
            text::say(&mut out, "");
        },
        None => {},
    }
    say_stats(&mut out, &h.session_stats, "Per-Session Stats:", false);
    proof {
        assert(views(out@) =~= session_report(*h));
    }
    out
}

/// What is printed of the sessions of providers.
pub fn print_provider_report(h: &HealthReport, host: &Host) -> (r: Vec<String>)
    ensures
        views(r@) == provider_report(*h, host.brand@),
{
    let mut out: Vec<String> = Vec::new();
    let sessions = text::size(h.sessions_analyzed);
    let stored = text::size(h.descriptors);
    let confirmed = text::size(h.confirmed_failures);
    let inferred = text::size(h.inferred_failures);
    let calls = text::size(h.total_tool_calls);
    let head = text::cat5(
        "Project health: ",
        sessions.as_str(),
        " logical sessions (",
        stored.as_str(),
        " descriptors), ",
    );
    let middle = text::cat5(
        head.as_str(),
        confirmed.as_str(),
        " confirmed tool failures, ",
        inferred.as_str(),
        " inferred signals, ",
    );
    text::say3(&mut out, middle.as_str(), calls.as_str(), " tool calls");
    text::say(&mut out, "");
    text::say(
        &mut out,
        "File churn is limited to source-backed applied patches/snapshots; shell writes are not inferred.",
    );
    text::say(&mut out, "");
    say_churn(
        &mut out,
        &h.hotspots,
        "Hotspot Files (most source-backed edits):",
        " edits across ",
        " logical sessions",
    );
    say_churn(
        &mut out,
        &h.rework,
        "Rework Files (edited across multiple logical sessions):",
        " versions across ",
        " logical sessions",
    );
    match &h.churn {
        Some(c) => {
            let rule = text::repeat('-', 60);
            let line = write_decisions(c);
            text::say3(
                &mut out,
                "Decision Stability (",
                host.brand.as_str(),
                " project registry):",
            );
            text::say(&mut out, rule.as_str());
            text::say(&mut out, line.as_str());
            text::say(&mut out, "");
        },
        None => {
            text::say3(
                &mut out,
                "Decision stability: unavailable (",
                host.brand.as_str(),
                " project registry not resolved)",
            );
            text::say(&mut out, "");
        },
    }
    say_stats(&mut out, &h.session_stats, "Per-Logical-Session Stats:", true);
    proof {
        assert(views(out@) =~= provider_report(*h, host.brand@));
    }
    out
}

// ---------------------------------------------------------------------------
// As JSON
// ---------------------------------------------------------------------------

/// The fields of a file that changed often. `counted` names what was counted.
pub open spec fn churn_fields(f: FileChurn, counted: Seq<char>) -> Seq<(Seq<char>, JsonView)> {
    seq![
        ("path"@, JsonView::Text(f.path@)),
        (counted, number_json(f.count as nat)),
        ("session_count"@, number_json(f.session_count as nat)),
    ]
}

fn churn_json(f: &FileChurn, counted: &str) -> (r: Json)
    ensures
        r@ == JsonView::Object(churn_fields(*f, counted@)),
{
    let mut fields: Vec<(String, Json)> = Vec::new();
    json::put(&mut fields, "path", json::of_text(f.path.as_str()));
    json::put(&mut fields, counted, json::of_size(f.count));
    json::put(&mut fields, "session_count", json::of_size(f.session_count));
    proof {
        assert(fields_view(fields@) =~= churn_fields(*f, counted@));
    }
    Json::Object(fields)
}

/// Files that changed often, as a JSON list.
pub open spec fn churns_view(files: Seq<FileChurn>, counted: Seq<char>) -> JsonView {
    JsonView::Array(files.map_values(|f: FileChurn| JsonView::Object(churn_fields(f, counted))))
}

fn churns_json(files: &Vec<FileChurn>, counted: &str) -> (r: Json)
    ensures
        r@ == churns_view(files@, counted@),
{
    let write = |f: &FileChurn| -> (o: Json)
        ensures
            o@ == JsonView::Object(churn_fields(*f, counted@)),
        { churn_json(f, counted) };
    let ghost g = |f: FileChurn| JsonView::Object(churn_fields(f, counted@));
    json::of_list(files, write, Ghost(g))
}

/// The fields of the stability of the decisions.
pub open spec fn stability_fields(d: DecisionChurn) -> Seq<(Seq<char>, JsonView)> {
    seq![
        ("total"@, number_json(d.total as nat)),
        ("confirmed"@, number_json(d.confirmed as nat)),
        ("superseded"@, number_json(d.superseded as nat)),
        ("abandoned"@, number_json(d.abandoned as nat)),
        ("proposed"@, number_json(d.proposed as nat)),
    ]
}

fn stability_json(d: &DecisionChurn) -> (r: Json)
    ensures
        r@ == JsonView::Object(stability_fields(*d)),
{
    let mut fields: Vec<(String, Json)> = Vec::new();
    json::put(&mut fields, "total", json::of_size(d.total));
    json::put(&mut fields, "confirmed", json::of_size(d.confirmed));
    json::put(&mut fields, "superseded", json::of_size(d.superseded));
    json::put(&mut fields, "abandoned", json::of_size(d.abandoned));
    json::put(&mut fields, "proposed", json::of_size(d.proposed));
    proof {
        assert(fields_view(fields@) =~= stability_fields(*d));
    }
    Json::Object(fields)
}

/// The stability of the decisions as a value, `null` where it is not known.
pub open spec fn stability_view(churn: Option<DecisionChurn>) -> JsonView {
    match churn {
        Some(d) => JsonView::Object(stability_fields(d)),
        None => JsonView::Null,
    }
}

fn churn_or_null(churn: &Option<DecisionChurn>) -> (r: Json)
    ensures
        r@ == stability_view(*churn),
{
    match churn {
        Some(d) => stability_json(d),
        None => Json::Null,
    }
}

/// The fields of the numbers of a session.
pub open spec fn stat_fields(s: SessionStat) -> Seq<(Seq<char>, JsonView)> {
    seq![
        ("session_id"@, JsonView::Text(s.session_id@)),
        ("timestamp"@, optional_text(s.timestamp)),
        ("tool_failure_count"@, number_json(s.error_count as nat)),
        ("tool_count"@, number_json(s.tool_count as nat)),
    ]
}

fn stat_json(s: &SessionStat) -> (r: Json)
    ensures
        r@ == JsonView::Object(stat_fields(*s)),
{
    let mut fields: Vec<(String, Json)> = Vec::new();
    json::put(&mut fields, "session_id", json::of_text(s.session_id.as_str()));
    json::put(&mut fields, "timestamp", json::of_option(&s.timestamp));
    json::put(&mut fields, "tool_failure_count", json::of_size(s.error_count));
    json::put(&mut fields, "tool_count", json::of_size(s.tool_count));
    proof {
        assert(fields_view(fields@) =~= stat_fields(*s));
    }
    Json::Object(fields)
}

/// The numbers of the sessions, as a JSON list.
pub open spec fn stats_view(stats: Seq<SessionStat>) -> JsonView {
    JsonView::Array(stats.map_values(|s: SessionStat| JsonView::Object(stat_fields(s))))
}

fn stats_json(stats: &Vec<SessionStat>) -> (r: Json)
    ensures
        r@ == stats_view(stats@),
{
    let ghost g = |s: SessionStat| JsonView::Object(stat_fields(s));
    json::of_list(stats, stat_json, Ghost(g))
}

/// The fields of a report.
pub open spec fn report_fields(project: Seq<char>, h: HealthReport) -> Seq<(Seq<char>, JsonView)> {
    seq![
        ("project"@, JsonView::Text(project)),
        ("sessions_analyzed"@, number_json(h.sessions_analyzed as nat)),
        ("total_tool_failures"@, number_json(h.total_errors as nat)),
        ("total_tool_calls"@, number_json(h.total_tool_calls as nat)),
        ("hotspot_files"@, churns_view(h.hotspots@, "edit_count"@)),
        ("rework_files"@, churns_view(h.rework@, "version_count"@)),
        ("decision_churn"@, stability_view(h.churn)),
        ("session_stats"@, stats_view(h.session_stats@)),
    ]
}

/// A report as a JSON object.
pub fn report_json(project: &str, h: &HealthReport) -> (r: Json)
    ensures
        r@ == JsonView::Object(report_fields(project@, *h)),
{
    let mut fields: Vec<(String, Json)> = Vec::new();
    json::put(&mut fields, "project", json::of_text(project));
    json::put(&mut fields, "sessions_analyzed", json::of_size(h.sessions_analyzed));
    json::put(&mut fields, "total_tool_failures", json::of_size(h.total_errors));
    json::put(&mut fields, "total_tool_calls", json::of_size(h.total_tool_calls));
    json::put(&mut fields, "hotspot_files", churns_json(&h.hotspots, "edit_count"));
    json::put(&mut fields, "rework_files", churns_json(&h.rework, "version_count"));
    json::put(&mut fields, "decision_churn", churn_or_null(&h.churn));
    json::put(&mut fields, "session_stats", stats_json(&h.session_stats));
    proof {
        assert(fields_view(fields@) =~= report_fields(project@, *h));
    }
    Json::Object(fields)
}

/// What a report on several providers rests on.
#[derive(Debug, Clone, PartialEq, Eq)]
pub struct HealthCoverage {
    /// The providers.
    pub providers: Vec<String>,
    /// The number of sessions whose time was taken from what is known of their source.
    pub date_fallbacks: usize,
    /// Whether the decisions are known.
    pub decisions_available: bool,
    /// Where the decisions are kept.
    pub registry_path: Option<String>,
    /// The providers that could not be asked.
    pub skipped: Vec<SkippedProvider>,
    /// The warnings.
    pub warnings: Vec<String>,
}

/// The warnings beside a report on several providers.
pub fn print_warnings(c: &HealthCoverage) -> (r: Vec<String>)
    ensures
        views(r@) == warning_lines(c.warnings@, c.skipped@),
{
    provider::write_warnings(&c.warnings, &c.skipped)
}

/// The fields of what is known of the decisions.
pub open spec fn registry_fields(c: HealthCoverage) -> Seq<(Seq<char>, JsonView)> {
    seq![
        ("scope"@, JsonView::Text("claude_project_registry"@)),
        ("available"@, JsonView::Bool(c.decisions_available)),
        ("project_path"@, optional_text(c.registry_path)),
    ]
}

fn registry_json(c: &HealthCoverage) -> (r: Json)
    ensures
        r@ == JsonView::Object(registry_fields(*c)),
{
    let mut fields: Vec<(String, Json)> = Vec::new();
    json::put(&mut fields, "scope", json::of_text("claude_project_registry"));
    json::put(&mut fields, "available", Json::Bool(c.decisions_available));
    json::put(&mut fields, "project_path", json::of_option(&c.registry_path));
    proof {
        assert(fields_view(fields@) =~= registry_fields(*c));
    }
    Json::Object(fields)
}

/// The fields of a report on several providers.
pub open spec fn provider_report_fields(
    project: Seq<char>,
    h: HealthReport,
    c: HealthCoverage,
) -> Seq<(Seq<char>, JsonView)> {
    seq![
        ("project"@, JsonView::Text(project)),
        ("providers"@, texts_json(views(c.providers@))),
        ("sessions_analyzed"@, number_json(h.sessions_analyzed as nat)),
        ("session_descriptors_analyzed"@, number_json(h.descriptors as nat)),
        ("date_filter_fallback_descriptors"@, number_json(c.date_fallbacks as nat)),
        ("total_tool_failures"@, number_json(h.total_errors as nat)),
        ("confirmed_tool_failures"@, number_json(h.confirmed_failures as nat)),
        ("inferred_failure_signals"@, number_json(h.inferred_failures as nat)),
        ("total_tool_calls"@, number_json(h.total_tool_calls as nat)),
        ("hotspot_files"@, churns_view(h.hotspots@, "edit_count"@)),
        ("rework_files"@, churns_view(h.rework@, "version_count"@)),
        ("decision_churn"@, stability_view(h.churn)),
        ("registry_coverage"@, JsonView::Object(registry_fields(c))),
        ("session_stats"@, stats_view(h.session_stats@)),
        ("skipped_providers"@, skips_view(c.skipped@)),
        ("warnings"@, texts_json(views(c.warnings@))),
        (
            "coverage_note"@,
            JsonView::Text(
                "File churn uses source-backed applied patch/snapshot evidence; arbitrary shell writes are not inferred."@,
            ),
        ),
    ]
}

/// A report on several providers as a JSON object.
pub fn provider_report_json(project: &str, h: &HealthReport, c: &HealthCoverage) -> (r: Json)
    ensures
        r@ == JsonView::Object(provider_report_fields(project@, *h, *c)),
{
    let mut fields: Vec<(String, Json)> = Vec::new();
    json::put(&mut fields, "project", json::of_text(project));
    json::put(&mut fields, "providers", json::of_texts(&c.providers));
    json::put(&mut fields, "sessions_analyzed", json::of_size(h.sessions_analyzed));
    json::put(&mut fields, "session_descriptors_analyzed", json::of_size(h.descriptors));
    json::put(&mut fields, "date_filter_fallback_descriptors", json::of_size(c.date_fallbacks));
    json::put(&mut fields, "total_tool_failures", json::of_size(h.total_errors));
    json::put(&mut fields, "confirmed_tool_failures", json::of_size(h.confirmed_failures));
    json::put(&mut fields, "inferred_failure_signals", json::of_size(h.inferred_failures));
    json::put(&mut fields, "total_tool_calls", json::of_size(h.total_tool_calls));
    json::put(&mut fields, "hotspot_files", churns_json(&h.hotspots, "edit_count"));
    json::put(&mut fields, "rework_files", churns_json(&h.rework, "version_count"));
    json::put(&mut fields, "decision_churn", churn_or_null(&h.churn));
    json::put(&mut fields, "registry_coverage", registry_json(c));
    json::put(&mut fields, "session_stats", stats_json(&h.session_stats));
    json::put(&mut fields, "skipped_providers", skips_json(&c.skipped));
    json::put(&mut fields, "warnings", json::of_texts(&c.warnings));
    json::put(
        &mut fields,
        "coverage_note",
        json::of_text(
            "File churn uses source-backed applied patch/snapshot evidence; arbitrary shell writes are not inferred.",
        ),
    );
    proof {
        assert(fields_view(fields@) =~= provider_report_fields(project@, *h, *c));
    }
    Json::Object(fields)
}

// ---------------------------------------------------------------------------
// What calls hand back
// ---------------------------------------------------------------------------

/// Providers answer if and only if one was named. What could not be read stops the work if and
/// only if all or nothing is wanted, and the first of it is told.
pub proof fn first_failure_stops_the_work(
    provider: Vec<String>,
    route: HealthRoute,
    atomic: bool,
    errors: Vec<AnalysisError>,
    r: Result<(), SnatchError>,
)
    ensures
        call_ensures(run, (&provider,), route) ==> (route is Sessions <==> provider@.len() == 0),
        call_ensures(accept_errors, (atomic, &errors), r) ==> {
            &&& !atomic ==> r is Ok
            &&& atomic ==> (r is Ok <==> errors@.len() == 0)
            &&& r matches Err(e) ==> e@ == invalid(
                errors@[0].key@,
                "selected session could not be analyzed: "@ + errors@[0].reason@,
            )
        },
{
}

} // verus!
