//! How the stored form of sessions drifts: what is scanned, and what is reported.
use vstd::prelude::*;

use crate::commands::helpers;
use crate::commands::helpers::{flag_views, given_flags};
use crate::error::{invalid, invalid_argument, ErrorView, SnatchError};
use crate::host::Host;
use crate::json;
use crate::json::{count_of, field, fields_view, text_of, with_field, Json, JsonView};
use crate::provider::{all_is_mixed, ProviderSelection};
use crate::text;
use crate::text::{decimal, padded, padded_left, spread, views};
use crate::time;
use crate::time::shown_or;

verus! {

/// What can be asked for.
#[derive(Debug, Clone, PartialEq, Eq)]
pub struct DoctorArgs {
    /// The project.
    pub project: Option<String>,
    /// Only sessions after this.
    pub since: Option<String>,
    /// All sessions, however old.
    pub all: bool,
    /// Sessions of agents too.
    pub subagents: bool,
    /// The providers to report of.
    pub provider: Vec<String>,
}

/// What is done.
#[derive(Debug, Clone, PartialEq, Eq)]
pub enum DoctorRoute {
    /// The reports of some providers.
    Providers(ProviderSelection),
    /// A scan of the sessions after this.
    Scan(Option<String>),
}

/// How far back a scan goes: as asked for, else thirty days unless everything is asked for.
pub open spec fn scan_bound(args: DoctorArgs) -> Option<Seq<char>> {
    match args.since {
        Some(s) => Some(s@),
        None => if args.all {
            None
        } else {
            Some("30d"@)
        },
    }
}

/// The flags that do not go with the reports of providers.
pub open spec fn refused_flags(args: DoctorArgs) -> Seq<(Seq<char>, bool)> {
    seq![
        ("project"@, args.project is Some),
        ("--since"@, args.since is Some),
        ("--subagents"@, args.subagents),
    ]
}

/// The flags that do not go with the reports of providers, and whether they were given.
pub fn unsupported_flags(args: &DoctorArgs) -> (r: Vec<(String, bool)>)
    ensures
        flag_views(r@) == refused_flags(*args),
{
    let mut out: Vec<(String, bool)> = Vec::new();
    out.push(("project".to_owned(), args.project.is_some()));
    out.push(("--since".to_owned(), args.since.is_some()));
    out.push(("--subagents".to_owned(), args.subagents));
    proof {
        assert(flag_views(out@) =~= refused_flags(*args));
    }
    out
}

/// What is done: the reports of the providers that are named, else a scan. The reports are of all
/// sessions, so they are refused where a filter was given.
pub fn run(args: &DoctorArgs) -> (r: Result<DoctorRoute, SnatchError>)
    ensures
        if args.provider@.len() == 0 {
            r matches Ok(DoctorRoute::Scan(since)) && (match since {
                Some(s) => scan_bound(*args) == Some(s@),
                None => scan_bound(*args) is None,
            })
        } else if given_flags(refused_flags(*args)).len() > 0 {
            r matches Err(e) && e@ == (ErrorView::UnsupportedFlags {
                route: "doctor --provider (full-corpus provider diagnostics)"@,
                flags: given_flags(refused_flags(*args)),
            })
        } else if all_is_mixed(views(args.provider@)) {
            r matches Err(e) && e@ == invalid(
                "--provider"@,
                "'all' cannot be combined with other providers"@,
            )
        } else if views(args.provider@).contains("all"@) {
            r == Ok::<DoctorRoute, SnatchError>(DoctorRoute::Providers(ProviderSelection::All))
        } else {
            r matches Ok(DoctorRoute::Providers(ProviderSelection::Explicit(ids))) && views(ids@)
                == views(args.provider@)
        },
{
    if args.provider.len() == 0 {
        let since: Option<String> = match &args.since {
            Some(s) => Some(s.clone()),
            None => if args.all {
                None
            } else {
                Some("30d".to_owned())
            },
        };
        return Ok(DoctorRoute::Scan(since));
    }
    let flags = unsupported_flags(args);
    match helpers::refuse_unsupported_flags(
        "doctor --provider (full-corpus provider diagnostics)",
        &flags,
    ) {
        Ok(()) => {},
        Err(e) => {
            return Err(e);
        },
    }
    match ProviderSelection::from_flags(&args.provider) {
        Ok(selection) => Ok(DoctorRoute::Providers(selection)),
        Err(reason) => Err(invalid_argument("--provider", reason)),
    }
}

// ---------------------------------------------------------------------------
// The scan
// ---------------------------------------------------------------------------

/// How often something unknown was seen.
#[derive(Debug, Clone, PartialEq, Eq)]
pub struct DriftSighting {
    /// How often.
    pub count: usize,
    /// In how many sessions.
    pub session_count: usize,
    /// When last.
    pub last_seen: Option<i128>,
}

/// The line of a sighting.
pub open spec fn sighting_line(name: Seq<char>, s: DriftSighting) -> Seq<char> {
    "  "@ + padded(name, 28) + " "@ + padded_left(decimal(s.count as nat), 7) + "x  in "@
        + padded_left(decimal(s.session_count as nat), 3) + " session(s)  last seen "@ + shown_or(
        s.last_seen,
        "%Y-%m-%d"@,
        "unknown"@,
    )
}

/// The line of a sighting. A day that the calendar does not hold is unknown.
pub fn fmt_sighting(name: &str, s: &DriftSighting) -> (r: String)
    ensures
        r@ == sighting_line(name@, *s),
{
    let day = time::show_or(s.last_seen, "%Y-%m-%d", "unknown");
    let wide = text::pad(name, 28);
    let digits = text::size(s.count);
    let count = text::pad_left(digits.as_str(), 7);
    let session_digits = text::size(s.session_count);
    let sessions = text::pad_left(session_digits.as_str(), 3);
    let head = text::cat5("  ", wide.as_str(), " ", count.as_str(), "x  in ");
    text::cat4(head.as_str(), sessions.as_str(), " session(s)  last seen ", day.as_str())
}

/// How often a kind of attachment was seen, and how often it is shown.
#[derive(Debug, Clone, PartialEq, Eq)]
pub struct AttachmentSighting {
    /// How often it was seen.
    pub sighting: DriftSighting,
    /// How often it is shown.
    pub rendered_count: usize,
}

/// What a scan found.
#[derive(Debug, Clone, PartialEq, Eq)]
pub struct DoctorReport {
    /// The sessions that were scanned.
    pub sessions_scanned: usize,
    /// The entries that were scanned.
    pub entries_scanned: usize,
    /// The lines that could not be read.
    pub lines_unparsed: usize,
    /// The sessions with such lines.
    pub sessions_with_unparsed: usize,
    /// The entries of which something could be kept.
    pub entries_salvaged: usize,
    /// The thoughts.
    pub thinking_blocks: usize,
    /// The thoughts without text.
    pub thinking_blocks_empty: usize,
    /// The part of the thoughts without text, in percent, as shown.
    pub thinking_empty_percent: String,
    /// Kinds of entries that are not known.
    pub unknown_entry_types: Vec<(String, DriftSighting)>,
    /// Kinds of messages of the system that are not known.
    pub other_system_subtypes: Vec<(String, DriftSighting)>,
    /// Parts of messages that are not known.
    pub unknown_content_blocks: Vec<(String, DriftSighting)>,
    /// Kinds of attachments.
    pub attachment_kinds: Vec<(String, AttachmentSighting)>,
    /// Models without a price.
    pub unpriced_models: Vec<(String, DriftSighting)>,
}

/// The lines of sightings, or that there are none.
pub open spec fn sighting_lines(found: Seq<(String, DriftSighting)>) -> Seq<Seq<char>> {
    if found.len() == 0 {
        seq!["  (none)"@]
    } else {
        found.map_values(|f: (String, DriftSighting)| sighting_line(f.0@, f.1))
    }
}

fn write_sightings(found: &Vec<(String, DriftSighting)>) -> (r: Vec<String>)
    ensures
        views(r@) == sighting_lines(found@),
{
    let mut out: Vec<String> = Vec::new();
    if found.len() == 0 {
        text::say(&mut out, "  (none)");
        proof {
            assert(views(out@) =~= seq!["  (none)"@]);
        }
    } else {
        let write = |f: &(String, DriftSighting)| -> (o: String)
            ensures
                o@ == sighting_line(f.0@, f.1),
            { fmt_sighting(f.0.as_str(), &f.1) };
        let ghost g = |f: (String, DriftSighting)| sighting_line(f.0@, f.1);
        text::say_each(&mut out, found, write, Ghost(g));
        proof {
            assert(views(out@) =~= found@.map_values(g));
        }
    }
    out
}

/// Whether a kind of attachment is shown: always, at times or never.
pub open spec fn rendered_tag(a: AttachmentSighting) -> Seq<char> {
    if a.rendered_count == a.sighting.count {
        " [rendered]"@
    } else if a.rendered_count > 0 {
        " [renders "@ + decimal(a.rendered_count as nat) + "/"@ + decimal(a.sighting.count as nat)
            + "]"@
    } else {
        ""@
    }
}

/// The line of a kind of attachment.
pub open spec fn attachment_line(f: (String, AttachmentSighting)) -> Seq<char> {
    sighting_line(f.0@, f.1.sighting) + rendered_tag(f.1)
}

fn write_attachment(f: &(String, AttachmentSighting)) -> (r: String)
    ensures
        r@ == attachment_line(*f),
{
    let line = fmt_sighting(f.0.as_str(), &f.1.sighting);
    let tag: String = if f.1.rendered_count == f.1.sighting.count {
        " [rendered]".to_owned()
    } else if f.1.rendered_count > 0 {
        let part = text::size(f.1.rendered_count);
        let all = text::size(f.1.sighting.count);
        text::cat5(" [renders ", part.as_str(), "/", all.as_str(), "]")
    } else {
        "".to_owned()
    };
    text::cat2(line.as_str(), tag.as_str())
}

/// The lines of attachments, or that there are none.
pub open spec fn attachment_lines(found: Seq<(String, AttachmentSighting)>) -> Seq<Seq<char>> {
    if found.len() == 0 {
        seq!["  (none)"@]
    } else {
        found.map_values(|f: (String, AttachmentSighting)| attachment_line(f))
    }
}

fn write_attachments(found: &Vec<(String, AttachmentSighting)>) -> (r: Vec<String>)
    ensures
        views(r@) == attachment_lines(found@),
{
    let mut out: Vec<String> = Vec::new();
    if found.len() == 0 {
        text::say(&mut out, "  (none)");
        proof {
            assert(views(out@) =~= seq!["  (none)"@]);
        }
    } else {
        let ghost g = |f: (String, AttachmentSighting)| attachment_line(f);
        text::say_each(&mut out, found, write_attachment, Ghost(g));
        proof {
            assert(views(out@) =~= found@.map_values(g));
        }
    }
    out
}

/// The first lines: what was scanned.
pub open spec fn scope_lines(report: DoctorReport, failed: usize, since: Option<Seq<char>>) -> Seq<
    Seq<char>,
> {
    let head = seq![
        "Doctor Report ("@ + (match since {
            None => "entire corpus"@,
            Some(s) => "since "@ + s,
        }) + ")"@,
        "========================================"@,
        "Scanned: "@ + decimal(report.sessions_scanned as nat) + " sessions, "@ + decimal(
            report.entries_scanned as nat,
        ) + " entries"@,
    ];
    if failed > 0 {
        head.push("Unreadable sessions: "@ + decimal(failed as nat))
    } else {
        head
    }
}

/// What could not be read.
pub open spec fn parsing_lines(report: DoctorReport) -> Seq<Seq<char>> {
    seq![
        ""@,
        "Parsing:"@,
        "  Unparsed lines: "@ + decimal(report.lines_unparsed as nat) + " (in "@ + decimal(
            report.sessions_with_unparsed as nat,
        ) + " session(s))"@,
        "  Salvaged entries: "@ + decimal(report.entries_salvaged as nat),
        ""@,
        "Thinking:"@,
    ]
}

/// The thoughts.
pub open spec fn thinking_lines(report: DoctorReport, host: Seq<char>) -> Seq<Seq<char>> {
    if report.thinking_blocks == 0 {
        seq!["  No thinking blocks in scope."@]
    } else {
        let counts = seq![
            "  "@ + decimal(report.thinking_blocks as nat) + " blocks, "@ + decimal(
                report.thinking_blocks_empty as nat,
            ) + " empty ("@ + report.thinking_empty_percent@ + "%)"@,
        ];
        if report.thinking_blocks_empty == report.thinking_blocks {
            counts.push(
                "  All thinking text is empty — this "@ + host + " version does not persist it."@,
            )
        } else {
            counts
        }
    }
}

fn write_scope(report: &DoctorReport, failed: usize, since: Option<&str>) -> (r: Vec<String>)
    ensures
        views(r@) == scope_lines(
            *report,
            failed,
            match since {
                None => None,
                Some(s) => Some(s@),
            },
        ),
{
    let mut out: Vec<String> = Vec::new();
    let scope: String = match since {
        None => "entire corpus".to_owned(),
        Some(s) => text::cat2("since ", s),
    };
    let sessions = text::size(report.sessions_scanned);
    let entries = text::size(report.entries_scanned);
    text::say3(&mut out, "Doctor Report (", scope.as_str(), ")");
    text::say(&mut out, "========================================");
    text::say5(
        &mut out,
        "Scanned: ",
        sessions.as_str(),
        " sessions, ",
        entries.as_str(),
        " entries",
    );
    if failed > 0 {
        let count = text::size(failed);
        text::say2(&mut out, "Unreadable sessions: ", count.as_str());
    }
    proof {
        assert(views(out@) =~= scope_lines(
            *report,
            failed,
            match since {
                None => None,
                Some(s) => Some(s@),
            },
        ));
    }
    out
}

fn write_parsing(report: &DoctorReport) -> (r: Vec<String>)
    ensures
        views(r@) == parsing_lines(*report),
{
    let mut out: Vec<String> = Vec::new();
    let lines = text::size(report.lines_unparsed);
    let sessions = text::size(report.sessions_with_unparsed);
    let salvaged = text::size(report.entries_salvaged);
    text::say(&mut out, "");
    text::say(&mut out, "Parsing:");
    text::say5(
        &mut out,
        "  Unparsed lines: ",
        lines.as_str(),
        " (in ",
        sessions.as_str(),
        " session(s))",
    );
    text::say2(&mut out, "  Salvaged entries: ", salvaged.as_str());
    text::say(&mut out, "");
    text::say(&mut out, "Thinking:");
    proof {
        assert(views(out@) =~= parsing_lines(*report));
    }
    out
}

fn write_thinking(report: &DoctorReport, host: &Host) -> (r: Vec<String>)
    ensures
        views(r@) == thinking_lines(*report, host.name@),
{
    let mut out: Vec<String> = Vec::new();
    if report.thinking_blocks == 0 {
        text::say(&mut out, "  No thinking blocks in scope.");
    } else {
        let blocks = text::size(report.thinking_blocks);
        let empty = text::size(report.thinking_blocks_empty);
        let counts = text::cat5("  ", blocks.as_str(), " blocks, ", empty.as_str(), " empty (");
        text::say3(&mut out, counts.as_str(), report.thinking_empty_percent.as_str(), "%)");
        if report.thinking_blocks_empty == report.thinking_blocks {
            text::say3(
                &mut out,
                "  All thinking text is empty — this ",
                host.name.as_str(),
                " version does not persist it.",
            );
        }
    }
    proof {
        assert(views(out@) =~= thinking_lines(*report, host.name@));
    }
    out
}

/// A heading after an empty line.
pub open spec fn heading(title: Seq<char>) -> Seq<Seq<char>> {
    seq![""@, title]
}

fn say_heading(out: &mut Vec<String>, title: &str)
    ensures
        views(final(out)@) == views(old(out)@) + heading(title@),
{
    let ghost start = views(out@);
    text::say(out, "");
    text::say(out, title);
    proof {
        assert(views(out@) =~= start + heading(title@));
    }
}

/// What is not known, and what is not shown.
pub open spec fn drift_lines(report: DoctorReport) -> Seq<Seq<char>> {
    heading("Unknown entry types (no LogEntry variant; preserved as Unknown):"@) + sighting_lines(
        report.unknown_entry_types@,
    ) + heading("System subtypes via the Other catch-all:"@) + sighting_lines(
        report.other_system_subtypes@,
    ) + heading("Unknown content blocks:"@) + sighting_lines(report.unknown_content_blocks@)
        + heading("Attachment kinds (marker-only unless marked rendered):"@) + attachment_lines(
        report.attachment_kinds@,
    ) + heading("Unpriced models (cost estimates show N/A):"@) + sighting_lines(
        report.unpriced_models@,
    )
}

fn write_drift(report: &DoctorReport) -> (r: Vec<String>)
    ensures
        views(r@) == drift_lines(*report),
{
    let mut out: Vec<String> = Vec::new();
    say_heading(&mut out, "Unknown entry types (no LogEntry variant; preserved as Unknown):");
    proof {
        assert(views(out@) =~= heading(
            "Unknown entry types (no LogEntry variant; preserved as Unknown):"@,
        ));
    }
    let entries = write_sightings(&report.unknown_entry_types);
    text::say_more(&mut out, entries);
    say_heading(&mut out, "System subtypes via the Other catch-all:");
    let subtypes = write_sightings(&report.other_system_subtypes);
    text::say_more(&mut out, subtypes);
    say_heading(&mut out, "Unknown content blocks:");
    let blocks = write_sightings(&report.unknown_content_blocks);
    text::say_more(&mut out, blocks);
    say_heading(&mut out, "Attachment kinds (marker-only unless marked rendered):");
    let attachments = write_attachments(&report.attachment_kinds);
    text::say_more(&mut out, attachments);
    say_heading(&mut out, "Unpriced models (cost estimates show N/A):");
    let models = write_sightings(&report.unpriced_models);
    text::say_more(&mut out, models);
    out
}

/// What a scan found, for a reader.
pub fn print_human(
    report: &DoctorReport,
    failed: usize,
    since: Option<&str>,
    host: &Host,
) -> (r: Vec<String>)
    ensures
        views(r@) == scope_lines(
            *report,
            failed,
            match since {
                None => None,
                Some(s) => Some(s@),
            },
        ) + parsing_lines(*report) + thinking_lines(*report, host.name@) + drift_lines(*report),
{
    let mut out = write_scope(report, failed, since);
    let parsing = write_parsing(report);
    text::say_more(&mut out, parsing);
    let thinking = write_thinking(report, host);
    text::say_more(&mut out, thinking);
    let drift = write_drift(report);
    text::say_more(&mut out, drift);
    out
}

// ---------------------------------------------------------------------------
// The reports of providers
// ---------------------------------------------------------------------------

/// What is said of a provider that reports nothing.
pub open spec fn no_report() -> JsonView {
    JsonView::Object(
        seq![
            (
                "note"@,
                JsonView::Text(
                    "no dedicated provider diagnostics; the classic `snatch doctor` scan covers this provider"@,
                ),
            ),
        ],
    )
}

/// What is said of a provider that cannot report.
pub open spec fn withheld() -> JsonView {
    JsonView::Object(
        seq![
            (
                "unavailable"@,
                JsonView::Text(
                    "provider unavailable or diagnostics failed (details withheld; run `snatch providers`)"@,
                ),
            ),
        ],
    )
}

/// The reports of providers, under their ids.
pub open spec fn reports_of(items: Seq<(String, Option<Json>)>) -> Seq<(Seq<char>, JsonView)>
    decreases items.len(),
{
    if items.len() == 0 {
        Seq::empty()
    } else {
        with_field(
            reports_of(items.drop_last()),
            items.last().0@,
            match items.last().1 {
                Some(report) => report@,
                None => no_report(),
            },
        )
    }
}

/// The reports with what is said of the providers that cannot report.
pub open spec fn with_skipped(
    reports: Seq<(Seq<char>, JsonView)>,
    skipped: Seq<String>,
) -> Seq<(Seq<char>, JsonView)>
    decreases skipped.len(),
{
    if skipped.len() == 0 {
        reports
    } else {
        with_field(with_skipped(reports, skipped.drop_last()), skipped.last()@, withheld())
    }
}

fn one_text(name: &str, message: &str) -> (r: Json)
    ensures
        r@ == JsonView::Object(seq![(name@, JsonView::Text(message@))]),
{
    let mut fields: Vec<(String, Json)> = Vec::new();
    json::put(&mut fields, name, json::of_text(message));
    proof {
        assert(fields_view(fields@) =~= seq![(name@, JsonView::Text(message@))]);
    }
    Json::Object(fields)
}

/// The reports of providers, under their ids: a provider that reports nothing gets a note, and one
/// that cannot report is said to be unavailable.
pub fn gather_reports(items: &Vec<(String, Option<Json>)>, skipped: &Vec<String>) -> (r: Vec<
    (String, Json),
>)
    ensures
        fields_view(r@) == with_skipped(reports_of(items@), skipped@),
{
    let mut reports: Vec<(String, Json)> = Vec::new();
    let mut i: usize = 0;
    proof {
        assert(items@.take(0) =~= Seq::empty());
        assert(fields_view(reports@) =~= Seq::empty());
    }
    while i < items.len()
        invariant
            i <= items@.len(),
            fields_view(reports@) == reports_of(items@.take(i as int)),
        decreases items@.len() - i,
    {
        proof {
            let next = items@.take(i + 1);
            assert(next.drop_last() =~= items@.take(i as int));
            assert(next.last() == items@[i as int]);
        }
        let value: Json = match &items[i].1 {
            Some(report) => report.copy(),
            None => one_text(
                "note",
                "no dedicated provider diagnostics; the classic `snatch doctor` scan covers this provider",
            ),
        };
        json::set_field(&mut reports, items[i].0.as_str(), value);
        i = i + 1;
    }
    proof {
        assert(items@.take(i as int) =~= items@);
    }
    let mut k: usize = 0;
    proof {
        assert(skipped@.take(0) =~= Seq::empty());
    }
    while k < skipped.len()
        invariant
            k <= skipped@.len(),
            fields_view(reports@) == with_skipped(
                reports_of(items@),
                skipped@.take(k as int),
            ),
        decreases skipped@.len() - k,
    {
        proof {
            let next = skipped@.take(k + 1);
            assert(next.drop_last() =~= skipped@.take(k as int));
            assert(next.last() == skipped@[k as int]);
        }
        let value = one_text(
            "unavailable",
            "provider unavailable or diagnostics failed (details withheld; run `snatch providers`)",
        );
        json::set_field(&mut reports, skipped[k].as_str(), value);
        k = k + 1;
    }
    proof {
        assert(skipped@.take(k as int) =~= skipped@);
    }
    reports
}

/// A provider that cannot report is said to be unavailable, whatever it reported before; a
/// provider that can keeps its report.
pub proof fn failed_providers_are_withheld(
    reports: Seq<(Seq<char>, JsonView)>,
    skipped: Seq<String>,
    id: Seq<char>,
)
    ensures
        field(with_skipped(reports, skipped), id) == (if views(skipped).contains(id) {
            Some(withheld())
        } else {
            field(reports, id)
        }),
    decreases skipped.len(),
{
    if skipped.len() > 0 {
        let front = skipped.drop_last();
        failed_providers_are_withheld(reports, front, id);
        json::set_fields_are_kept(
            with_skipped(reports, front),
            skipped.last()@,
            withheld(),
            id,
        );
        assert(views(skipped) =~= views(front).push(skipped.last()@));
        if views(front).contains(id) {
            let k = choose|k: int| 0 <= k < views(front).len() && views(front)[k] == id;
            assert(views(skipped)[k] == id);
        }
        if id == skipped.last()@ {
            assert(views(skipped)[skipped.len() - 1] == id);
        }
        if views(skipped).contains(id) && id != skipped.last()@ {
            let k = choose|k: int| 0 <= k < views(skipped).len() && views(skipped)[k] == id;
            assert(views(front)[k] == id);
        }
    } else {
        assert(views(skipped) =~= Seq::empty());
    }
}

/// The sum of the counts among some values.
pub open spec fn count_sum(fields: Seq<(Seq<char>, JsonView)>) -> nat
    decreases fields.len(),
{
    if fields.len() == 0 {
        0
    } else {
        count_sum(fields.drop_last()) + (match count_of(fields.last().1) {
            Some(n) => n,
            None => 0,
        })
    }
}

proof fn lemma_count_sum_grows(fields: Seq<(Seq<char>, JsonView)>, k: int)
    requires
        0 <= k <= fields.len(),
    ensures
        count_sum(fields.take(k)) <= count_sum(fields),
    decreases fields.len(),
{
    if k < fields.len() {
        lemma_count_sum_grows(fields.drop_last(), k);
        assert(fields.drop_last().take(k) =~= fields.take(k));
    } else {
        assert(fields.take(k) =~= fields);
    }
}

/// The counts of an object of a report can be summed.
pub open spec fn sum_fits(fields: Seq<(Seq<char>, JsonView)>, key: Seq<char>) -> bool {
    match field(fields, key) {
        Some(JsonView::Object(m)) => count_sum(m) <= u64::MAX,
        _ => true,
    }
}

/// The counts of a report can be summed.
pub open spec fn sums_fit(report: JsonView) -> bool {
    match report {
        JsonView::Object(f) => sum_fits(f, "unknown_envelope_types"@) && sum_fits(
            f,
            "unknown_response_item_types"@,
        ) && sum_fits(f, "unknown_event_msg_types"@) && sum_fits(f, "unknown_field_paths"@)
            && sum_fits(f, "unbaselined_payload_types"@),
        _ => true,
    }
}

/// The line of a count, where it is there.
pub open spec fn counter_line(
    fields: Seq<(Seq<char>, JsonView)>,
    label: Seq<char>,
    key: Seq<char>,
) -> Seq<Seq<char>> {
    match field(fields, key) {
        Some(j) => match count_of(j) {
            Some(n) => seq!["  "@ + label + ": "@ + decimal(n)],
            None => Seq::empty(),
        },
        None => Seq::empty(),
    }
}

fn say_counter(out: &mut Vec<String>, fields: &Vec<(String, Json)>, label: &str, key: &str)
    ensures
        views(final(out)@) == views(old(out)@) + counter_line(
            fields_view(fields@),
            label@,
            key@,
        ),
{
    let ghost start = views(out@);
    match json::get(fields, key) {
        Some(j) => match json::as_count(j) {
            Some(n) => {
                let digits = text::number(n);
                text::say4(out, "  ", label, ": ", digits.as_str());
            },
            None => {},
        },
        None => {},
    }
    proof {
        assert(views(out@) =~= start + counter_line(fields_view(fields@), label@, key@));
    }
}

/// The line of the counts of an object, where it is there.
pub open spec fn tally_line(
    fields: Seq<(Seq<char>, JsonView)>,
    label: Seq<char>,
    key: Seq<char>,
) -> Seq<Seq<char>> {
    match field(fields, key) {
        Some(JsonView::Object(m)) => seq![
            "  "@ + label + ": "@ + decimal(m.len()) + " distinct ("@ + decimal(count_sum(m))
                + " records)"@,
        ],
        _ => Seq::empty(),
    }
}

fn sum_counts(fields: &Vec<(String, Json)>) -> (r: u64)
    requires
        count_sum(fields_view(fields@)) <= u64::MAX,
    ensures
        r == count_sum(fields_view(fields@)),
{
    let mut total: u64 = 0;
    let mut i: usize = 0;
    let ghost all = fields_view(fields@);
    proof {
        json::lemma_fields_view(fields@);
        assert(all.take(0) =~= Seq::empty());
    }
    while i < fields.len()
        invariant
            i <= fields@.len(),
            all == fields_view(fields@),
            all.len() == fields@.len(),
            forall|k: int|
                0 <= k < fields@.len() ==> #[trigger] all[k] == (fields@[k].0@, fields@[k].1@),
            total == count_sum(all.take(i as int)),
            count_sum(all) <= u64::MAX,
        decreases fields@.len() - i,
    {
        proof {
            let next = all.take(i + 1);
            assert(next.drop_last() =~= all.take(i as int));
            assert(next.last() == all[i as int]);
            lemma_count_sum_grows(all, i + 1);
        }
        match json::as_count(&fields[i].1) {
            Some(n) => {
                total = total + n;
            },
            None => {},
        }
        i = i + 1;
    }
    proof {
        assert(all.take(i as int) =~= all);
    }
    total
}

fn say_tally(out: &mut Vec<String>, fields: &Vec<(String, Json)>, label: &str, key: &str)
    requires
        sum_fits(fields_view(fields@), key@),
    ensures
        views(final(out)@) == views(old(out)@) + tally_line(fields_view(fields@), label@, key@),
{
    let ghost start = views(out@);
    match json::get(fields, key) {
        Some(Json::Object(m)) => {
            proof {
                json::lemma_fields_view(m@);
            }
            let distinct = text::size(m.len());
            let sum = sum_counts(m);
            let total = text::number(sum);
            let head = text::cat5("  ", label, ": ", distinct.as_str(), " distinct (");
            text::say3(out, head.as_str(), total.as_str(), " records)");
        },
        _ => {},
    }
    proof {
        assert(views(out@) =~= start + tally_line(fields_view(fields@), label@, key@));
    }
}

/// The count at a place of a list, or nought.
pub open spec fn count_at(items: Seq<JsonView>, i: int) -> nat {
    if i < items.len() {
        match count_of(items[i]) {
            Some(n) => n,
            None => 0,
        }
    } else {
        0
    }
}

fn count_in(items: &Vec<Json>, i: usize) -> (r: u64)
    ensures
        r == count_at(json::items_view(items@), i as int),
{
    proof {
        json::lemma_items_view(items@);
    }
    if i < items.len() {
        match json::as_count(&items[i]) {
            Some(n) => n,
            None => 0,
        }
    } else {
        0
    }
}

/// The line of a month, where it is a pair.
pub open spec fn month_lines(f: (Seq<char>, JsonView)) -> Seq<Seq<char>> {
    match f.1 {
        JsonView::Array(items) => seq![
            "    "@ + f.0 + ": "@ + decimal(count_at(items, 1)) + "/"@ + decimal(
                count_at(items, 0),
            ),
        ],
        _ => Seq::empty(),
    }
}

/// The lines of months.
pub open spec fn months_lines(months: Seq<(Seq<char>, JsonView)>) -> Seq<Seq<char>>
    decreases months.len(),
{
    if months.len() == 0 {
        Seq::empty()
    } else {
        months_lines(months.drop_last()) + month_lines(months.last())
    }
}

/// The lines of how many thoughts have a summary, month by month.
pub open spec fn reasoning_lines(fields: Seq<(Seq<char>, JsonView)>) -> Seq<Seq<char>> {
    match field(fields, "reasoning_by_month"@) {
        Some(JsonView::Object(months)) => if months.len() == 0 {
            Seq::empty()
        } else {
            seq!["  reasoning summary availability by month (with/total):"@] + months_lines(months)
        },
        _ => Seq::empty(),
    }
}

fn write_months(months: &Vec<(String, Json)>) -> (r: Vec<String>)
    ensures
        views(r@) == months_lines(fields_view(months@)),
{
    let mut out: Vec<String> = Vec::new();
    let mut i: usize = 0;
    let ghost all = fields_view(months@);
    proof {
        json::lemma_fields_view(months@);
        assert(all.take(0) =~= Seq::empty());
        assert(views(out@) =~= Seq::empty());
    }
    while i < months.len()
        invariant
            i <= months@.len(),
            all == fields_view(months@),
            all.len() == months@.len(),
            forall|k: int|
                0 <= k < months@.len() ==> #[trigger] all[k] == (months@[k].0@, months@[k].1@),
            views(out@) == months_lines(all.take(i as int)),
        decreases months@.len() - i,
    {
        let ghost so_far = views(out@);
        proof {
            let next = all.take(i + 1);
            assert(next.drop_last() =~= all.take(i as int));
            assert(next.last() == all[i as int]);
        }
        match &months[i].1 {
            Json::Array(items) => {
                let with = text::number(count_in(items, 1));
                let total = text::number(count_in(items, 0));
                let head = text::cat4("    ", months[i].0.as_str(), ": ", with.as_str());
                text::say3(&mut out, head.as_str(), "/", total.as_str());
            },
            _ => {},
        }
        proof {
            assert(views(out@) =~= so_far + month_lines(all[i as int]));
        }
        i = i + 1;
    }
    proof {
        assert(all.take(i as int) =~= all);
    }
    out
}

fn write_reasoning(fields: &Vec<(String, Json)>) -> (r: Vec<String>)
    ensures
        views(r@) == reasoning_lines(fields_view(fields@)),
{
    let mut out: Vec<String> = Vec::new();
    proof {
        assert(views(out@) =~= Seq::empty());
    }
    match json::get(fields, "reasoning_by_month") {
        Some(Json::Object(months)) => {
            proof {
                json::lemma_fields_view(months@);
            }
            if months.len() > 0 {
                text::say(&mut out, "  reasoning summary availability by month (with/total):");
                let lines = write_months(months);
                text::say_more(&mut out, lines);
                proof {
                    assert(views(out@) =~= reasoning_lines(fields_view(fields@)));
                }
            }
        },
        _ => {},
    }
    out
}

/// The counts of a report.
pub open spec fn counters_lines(f: Seq<(Seq<char>, JsonView)>) -> Seq<Seq<char>> {
    counter_line(f, "sessions scanned"@, "sessions"@) + counter_line(f, "legacy sessions"@, "legacy_sessions"@) + counter_line(f, "unreadable sessions"@, "unreadable_sessions"@) + counter_line(f, "records"@, "records"@) + counter_line(f, "unparseable records"@, "unparseable"@) + counter_line(f, "active tails (transient)"@, "active_tails"@) + counter_line(f, "schema-checked records"@, "field_schema_checked_records"@) + counter_line(f, "missing payload discriminators"@, "missing_payload_discriminators"@) + counter_line(f, "vocabulary keys dropped at cap"@, "vocabulary_keys_dropped"@) + counter_line(f, "vocabulary keys truncated"@, "vocabulary_keys_truncated"@)
}

/// The sums of a report.
pub open spec fn tallies_lines(f: Seq<(Seq<char>, JsonView)>) -> Seq<Seq<char>> {
    tally_line(f, "unknown envelope types"@, "unknown_envelope_types"@) + tally_line(f, "unknown response_item types"@, "unknown_response_item_types"@) + tally_line(f, "unknown event_msg types"@, "unknown_event_msg_types"@) + tally_line(f, "unknown field paths"@, "unknown_field_paths"@) + tally_line(f, "unbaselined payload variants"@, "unbaselined_payload_types"@)
}

fn write_counters(fields: &Vec<(String, Json)>) -> (r: Vec<String>)
    ensures
        views(r@) == counters_lines(fields_view(fields@)),
{
    let mut out: Vec<String> = Vec::new();
    say_counter(&mut out, fields, "sessions scanned", "sessions");
    proof {
        assert(views(out@) =~= counter_line(fields_view(fields@), "sessions scanned"@, "sessions"@));
    }
    say_counter(&mut out, fields, "legacy sessions", "legacy_sessions");
    say_counter(&mut out, fields, "unreadable sessions", "unreadable_sessions");
    say_counter(&mut out, fields, "records", "records");
    say_counter(&mut out, fields, "unparseable records", "unparseable");
    say_counter(&mut out, fields, "active tails (transient)", "active_tails");
    say_counter(&mut out, fields, "schema-checked records", "field_schema_checked_records");
    say_counter(&mut out, fields, "missing payload discriminators", "missing_payload_discriminators");
    say_counter(&mut out, fields, "vocabulary keys dropped at cap", "vocabulary_keys_dropped");
    say_counter(&mut out, fields, "vocabulary keys truncated", "vocabulary_keys_truncated");
    out
}

fn write_tallies(fields: &Vec<(String, Json)>) -> (r: Vec<String>)
    requires
        sums_fit(JsonView::Object(fields_view(fields@))),
    ensures
        views(r@) == tallies_lines(fields_view(fields@)),
{
    let mut out: Vec<String> = Vec::new();
    say_tally(&mut out, fields, "unknown envelope types", "unknown_envelope_types");
    proof {
        assert(views(out@) =~= tally_line(
            fields_view(fields@),
            "unknown envelope types"@,
            "unknown_envelope_types"@,
        ));
    }
    say_tally(&mut out, fields, "unknown response_item types", "unknown_response_item_types");
    say_tally(&mut out, fields, "unknown event_msg types", "unknown_event_msg_types");
    say_tally(&mut out, fields, "unknown field paths", "unknown_field_paths");
    say_tally(&mut out, fields, "unbaselined payload variants", "unbaselined_payload_types");
    out
}

/// What a report says: that there is none, or its counts.
pub open spec fn body_lines(f: Seq<(Seq<char>, JsonView)>) -> Seq<Seq<char>> {
    match text_of(field(f, "unavailable"@)) {
        Some(reason) => seq!["  unavailable: "@ + reason],
        None => match text_of(field(f, "error"@)) {
            Some(error) => seq!["  "@ + error],
            None => match text_of(field(f, "note"@)) {
                Some(note) => seq!["  "@ + note],
                None => counters_lines(f) + tallies_lines(f) + reasoning_lines(f),
            },
        },
    }
}

/// The lines of the report of a provider.
pub open spec fn report_lines(id: Seq<char>, report: JsonView) -> Seq<Seq<char>> {
    match report {
        JsonView::Object(f) => seq![id] + body_lines(f),
        _ => seq![id],
    }
}

fn write_body(fields: &Vec<(String, Json)>) -> (r: Vec<String>)
    requires
        sums_fit(JsonView::Object(fields_view(fields@))),
    ensures
        views(r@) == body_lines(fields_view(fields@)),
{
    let mut out: Vec<String> = Vec::new();
    match json::get_text(fields, "unavailable") {
        Some(reason) => {
            text::say2(&mut out, "  unavailable: ", reason.as_str());
            proof {
                assert(views(out@) =~= body_lines(fields_view(fields@)));
            }
            return out;
        },
        None => {},
    }
    match json::get_text(fields, "error") {
        Some(error) => {
            text::say2(&mut out, "  ", error.as_str());
            proof {
                assert(views(out@) =~= body_lines(fields_view(fields@)));
            }
            return out;
        },
        None => {},
    }
    match json::get_text(fields, "note") {
        Some(note) => {
            text::say2(&mut out, "  ", note.as_str());
            proof {
                assert(views(out@) =~= body_lines(fields_view(fields@)));
            }
            return out;
        },
        None => {},
    }
    let mut lines = write_counters(fields);
    let tallies = write_tallies(fields);
    text::say_more(&mut lines, tallies);
    let reasoning = write_reasoning(fields);
    text::say_more(&mut lines, reasoning);
    lines
}

fn write_report(f: &(String, Json)) -> (r: Vec<String>)
    requires
        sums_fit(f.1@),
    ensures
        views(r@) == report_lines(f.0@, f.1@),
{
    let mut out: Vec<String> = Vec::new();
    text::say(&mut out, f.0.as_str());
    proof {
        assert(views(out@) =~= seq![f.0@]);
    }
    match &f.1 {
        Json::Object(fields) => {
            let body = write_body(fields);
            text::say_more(&mut out, body);
        },
        _ => {},
    }
    out
}

/// The reports of providers, for a reader.
pub fn provider_diagnostics(reports: &Vec<(String, Json)>) -> (r: Vec<String>)
    requires
        forall|i: int| 0 <= i < reports@.len() ==> sums_fit((#[trigger] reports@[i]).1@),
    ensures
        views(r@) == spread(reports@, |f: (String, Json)| report_lines(f.0@, f.1@)),
{
    let mut out: Vec<String> = Vec::new();
    proof {
        assert(views(out@) =~= Seq::empty());
    }
    let ghost g = |f: (String, Json)| report_lines(f.0@, f.1@);
    text::say_all(&mut out, reports, write_report, Ghost(g));
    out
}

fn sum_is_small(fields: &Vec<(String, Json)>, key: &str) -> (r: bool)
    ensures
        r == sum_fits(fields_view(fields@), key@),
{
    match json::get(fields, key) {
        Some(Json::Object(m)) => {
            let mut total: u64 = 0;
            let mut i: usize = 0;
            let ghost all = fields_view(m@);
            proof {
                json::lemma_fields_view(m@);
                assert(all.take(0) =~= Seq::empty());
            }
            while i < m.len()
                invariant
                    i <= m@.len(),
                    all == fields_view(m@),
                    all.len() == m@.len(),
                    forall|k: int|
                        0 <= k < m@.len() ==> #[trigger] all[k] == (m@[k].0@, m@[k].1@),
                    total == count_sum(all.take(i as int)),
                    field(fields_view(fields@), key@) == Some(JsonView::Object(all)),
                decreases m@.len() - i,
            {
                proof {
                    let next = all.take(i + 1);
                    assert(next.drop_last() =~= all.take(i as int));
                    assert(next.last() == all[i as int]);
                    lemma_count_sum_grows(all, i + 1);
                }
                match json::as_count(&m[i].1) {
                    Some(n) => {
                        if n > u64::MAX - total {
                            return false;
                        }
                        total = total + n;
                    },
                    None => {},
                }
                i = i + 1;
            }
            proof {
                assert(all.take(i as int) =~= all);
            }
            true
        },
        _ => true,
    }
}

/// Whether the counts of a report can be summed.
pub fn can_be_summed(report: &Json) -> (r: bool)
    ensures
        r == sums_fit(report@),
{
    match report {
        Json::Object(f) => sum_is_small(f, "unknown_envelope_types") && sum_is_small(
            f,
            "unknown_response_item_types",
        ) && sum_is_small(f, "unknown_event_msg_types") && sum_is_small(f, "unknown_field_paths")
            && sum_is_small(f, "unbaselined_payload_types"),
        _ => true,
    }
}

// ---------------------------------------------------------------------------
// What is looked at
// ---------------------------------------------------------------------------

/// The sessions are looked at since the day that is asked for; without one all of them where all are
/// asked for, and else those of the last thirty days.
pub proof fn thirty_days_are_looked_at(args: DoctorArgs)
    ensures
        args.since matches Some(s) ==> scan_bound(args) == Some(s@),
        args.since is None && args.all ==> scan_bound(args) is None,
        args.since is None && !args.all ==> scan_bound(args) == Some("30d"@),
{
}

/// The counts of two lists together are the sum of the counts of each; a value that is no count adds
/// nothing.
pub proof fn counts_add_up(a: Seq<(Seq<char>, JsonView)>, b: Seq<(Seq<char>, JsonView)>)
    ensures
        count_sum(a + b) == count_sum(a) + count_sum(b),
        a.len() == 1 ==> count_sum(a) == (match count_of(a[0].1) {
            Some(n) => n,
            None => 0,
        }),
    decreases b.len(),
{
    if a.len() == 1 {
        assert(a.drop_last() =~= Seq::empty());
        assert(count_sum(a.drop_last()) == 0);
    }
    if b.len() == 0 {
        assert(a + b =~= a);
    } else {
        counts_add_up(a, b.drop_last());
        assert((a + b).drop_last() =~= a + b.drop_last());
    }
}

// ---------------------------------------------------------------------------
// What calls hand back
// ---------------------------------------------------------------------------

/// Sessions are looked through if and only if no provider was named. With one, what narrows the
/// look is refused, and so is "all" beside another provider.
pub proof fn providers_are_diagnosed_whole(args: DoctorArgs, r: Result<DoctorRoute, SnatchError>)
    ensures
        call_ensures(run, (&args,), r) ==> {
            let named = args.provider@.len() > 0;
            let narrowed = args.project is Some || args.since is Some || args.subagents;
            &&& (r matches Ok(route) && route is Scan) <==> !named
            &&& named && narrowed ==> r is Err
            &&& named && !narrowed && args.provider@.len() == 1 ==> r is Ok
            &&& r matches Ok(DoctorRoute::Providers(ProviderSelection::Explicit(ids))) ==> views(
                ids@,
            ) == views(args.provider@) && !views(ids@).contains("all"@)
            &&& r matches Ok(DoctorRoute::Providers(ProviderSelection::All)) ==> views(
                args.provider@,
            ) == seq!["all"@]
        },
{
    let flags = refused_flags(args);
    let given = given_flags(flags);
    helpers::given_flags_are_named(flags);
    assert(flags[0].1 == (args.project is Some));
    assert(flags[1].1 == (args.since is Some));
    assert(flags[2].1 == args.subagents);
    if args.project is Some {
        assert(given.contains(flags[0].0));
    }
    if args.since is Some {
        assert(given.contains(flags[1].0));
    }
    if args.subagents {
        assert(given.contains(flags[2].0));
    }
    if given.len() > 0 {
        assert(given.contains(given[0]));
    }
    assert(views(args.provider@).len() == args.provider@.len());
    if args.provider@.len() == 1 && views(args.provider@).contains("all"@) {
        assert(views(args.provider@) =~= seq!["all"@]);
    }
}

} // verus!
