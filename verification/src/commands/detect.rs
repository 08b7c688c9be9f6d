//! Decisions that conversations seem to hold: which of them are recorded, and what is shown.
use vstd::prelude::*;

use crate::commands::helpers;
use crate::commands::helpers::cut_text;
use crate::error::{invalid, invalid_argument, SnatchError};
use crate::json;
use crate::json::{fields_view, given_text, time_json, Json, JsonView};
use crate::patterns;
use crate::patterns::build_error;
use crate::text;
use crate::text::{begins, decimal, ends, lowercase, padded_left, spread_numbered, trimmed, views};
use crate::time;
use crate::time::shown_or;

verus! {

/// How a decision was noticed.
#[derive(Debug, Clone, Copy, PartialEq, Eq, Structural)]
pub enum DetectionMethod {
    /// By a question and its answer.
    Exchange,
    /// By words that announce a decision.
    ExplicitMarker,
    /// By words that take one back.
    Reversal,
}

/// What may be a decision.
#[derive(Debug, Clone, PartialEq, Eq)]
pub struct CandidateDecision {
    /// When.
    pub timestamp: i128,
    /// The session.
    pub session_id: String,
    /// The session, in short.
    pub short_id: String,
    /// The entry.
    pub entry_uuid: String,
    /// How it was noticed.
    pub detection_method: DetectionMethod,
    /// How it was noticed, as shown.
    pub method_shown: String,
    /// How sure it is, as a JSON number.
    pub confidence: String,
    /// How sure it is, in percent.
    pub confidence_percent: u32,
    /// How sure it is, in percent, as shown before it is recorded.
    pub confidence_shown: String,
    /// The question.
    pub question: String,
    /// The answer.
    pub response: String,
    /// What confirms it.
    pub confirmation: Option<String>,
    /// The sentence of the answer that states a decision.
    pub decision_sentence: Option<String>,
    /// The first line of the answer that is a sentence.
    pub first_prose_line: Option<String>,
}

// ---------------------------------------------------------------------------
// The request
// ---------------------------------------------------------------------------

/// Why a topic cannot be looked for; nothing where it can.
pub fn check_topic(topic: &Option<String>) -> (r: Result<(), SnatchError>)
    ensures
        match *topic {
            None => r is Ok,
            Some(t) => match build_error(t@, false) {
                None => r is Ok,
                Some(message) => r matches Err(e) && e@ == invalid(
                    "topic"@,
                    "Invalid topic regex: "@ + message,
                ),
            },
        },
{
    match topic {
        None => Ok(()),
        Some(t) => match patterns::why_not_compiled(t.as_str(), false) {
            None => Ok(()),
            Some(message) => Err(
                invalid_argument("topic", text::cat2("Invalid topic regex: ", message.as_str())),
            ),
        },
    }
}

/// The most that is looked for.
pub fn effective_limit(limit: usize, no_limit: bool) -> (r: usize)
    ensures
        r == (if no_limit {
            usize::MAX
        } else {
            limit
        }),
{
    if no_limit {
        usize::MAX
    } else {
        limit
    }
}

/// Whether the progress of a search is shown.
pub fn shows_progress(session_count: usize, is_terminal: bool, quiet: bool) -> (r: bool)
    ensures
        r == (session_count > 10 && is_terminal && !quiet),
{
    session_count > 10 && is_terminal && !quiet
}

/// What is done with what was found.
#[derive(Debug, Clone, PartialEq, Eq)]
pub enum DetectPlan {
    /// Nothing was found; it is said, or not.
    Nothing(bool),
    /// It is shown.
    Show,
    /// It is recorded for a project, and shown.
    Register(String),
    /// It is said what would be recorded for a project, and shown.
    DryRun(String),
}

/// What is done with what was found, or why it cannot be done.
pub fn run(
    found: usize,
    quiet: bool,
    register: bool,
    dry_run: bool,
    project: &Option<String>,
) -> (r: Result<DetectPlan, SnatchError>)
    ensures
        if found == 0 {
            r == Ok::<DetectPlan, SnatchError>(DetectPlan::Nothing(!quiet))
        } else if !register && !dry_run {
            r == Ok::<DetectPlan, SnatchError>(DetectPlan::Show)
        } else {
            match *project {
                None => r matches Err(e) && e@ == invalid(
                    "project"@,
                    "--project is required with --register"@,
                ),
                Some(p) => if dry_run {
                    r matches Ok(DetectPlan::DryRun(s)) && s@ == p@
                } else {
                    r matches Ok(DetectPlan::Register(s)) && s@ == p@
                },
            }
        },
{
    if found == 0 {
        return Ok(DetectPlan::Nothing(!quiet));
    }
    if !register && !dry_run {
        return Ok(DetectPlan::Show);
    }
    match project {
        None => Err(
            invalid_argument("project", "--project is required with --register".to_owned()),
        ),
        Some(p) => if dry_run {
            Ok(DetectPlan::DryRun(p.clone()))
        } else {
            Ok(DetectPlan::Register(p.clone()))
        },
    }
}

// ---------------------------------------------------------------------------
// Recording
// ---------------------------------------------------------------------------

/// A text without the dots at its end, three at a time.
pub open spec fn without_dots(s: Seq<char>) -> Seq<char>
    decreases s.len(),
{
    if s.len() >= 3 && ends(s, seq!['.', '.', '.']) {
        without_dots(s.take(s.len() - 3))
    } else {
        s
    }
}

fn trim_dots(s: &str) -> (r: String)
    ensures
        r@ == without_dots(s@),
{
    let chars = text::chars_of(s);
    let mut end: usize = chars.len();
    proof {
        assert(s@.take(end as int) =~= s@);
    }
    while end >= 3 && chars[end - 1] == '.' && chars[end - 2] == '.' && chars[end - 3] == '.'
        invariant
            end <= chars@.len(),
            chars@ == s@,
            without_dots(s@) == without_dots(s@.take(end as int)),
        decreases end,
    {
        proof {
            let part = s@.take(end as int);
            assert(part.skip(end - 3) =~= seq!['.', '.', '.']);
            assert(part.take(end - 3) =~= s@.take(end - 3));
        }
        end = end - 3;
    }
    proof {
        let part = s@.take(end as int);
        if end >= 3 && ends(part, seq!['.', '.', '.']) {
            let tail = part.skip(part.len() - 3);
            assert(tail[0] == seq!['.', '.', '.'][0]);
            assert(tail[1] == seq!['.', '.', '.'][1]);
            assert(tail[2] == seq!['.', '.', '.'][2]);
            assert(false);
        }
    }
    let r = text::text_of(&chars, 0, end);
    proof {
        assert(r@ =~= s@.take(end as int));
    }
    r
}

/// The method makes for a record: a question and answer only where they are confirmed.
pub open spec fn method_counts(c: CandidateDecision) -> bool {
    match c.detection_method {
        DetectionMethod::Exchange => c.confirmation is Some,
        DetectionMethod::ExplicitMarker => true,
        DetectionMethod::Reversal => false,
    }
}

/// A question, in small letters, that no person asked.
pub open spec fn is_machine_question(lower: Seq<char>) -> bool {
    begins(lower, "this session is being continued"@) || begins(lower, "in the last session"@)
        || begins(lower, "<task-notification"@) || begins(lower, "<system-reminder"@)
}

/// Whether a question, in small letters, is one that no person asked.
pub fn machine_question_in(lower: &str) -> (r: bool)
    ensures
        r == is_machine_question(lower@),
{
    text::starts_with(lower, "this session is being continued") || text::starts_with(
        lower,
        "in the last session",
    ) || text::starts_with(lower, "<task-notification") || text::starts_with(
        lower,
        "<system-reminder",
    )
}

/// The title of a decision: the sentence that states it, else the first line of the answer, else
/// the question.
pub open spec fn title_of(c: CandidateDecision) -> Seq<char> {
    trimmed(
        without_dots(
            match c.decision_sentence {
                Some(s) => s@,
                None => match c.first_prose_line {
                    Some(s) => s@,
                    None => cut_text(c.question@, 120),
                },
            },
        ),
    )
}

/// What is recorded of a candidate: its title; nothing where it is no decision.
pub open spec fn recorded_title(c: CandidateDecision) -> Option<Seq<char>> {
    if !method_counts(c) || trimmed(c.response@).len() == 0 || is_machine_question(
        lowercase(c.question@),
    ) || trimmed(c.question@).len() == 0 || title_of(c).len() == 0 {
        None
    } else {
        Some(title_of(c))
    }
}

/// The title under which a candidate is recorded; nothing where it is not recorded.
pub fn title_to_record(c: &CandidateDecision) -> (r: Option<String>)
    ensures
        match r {
            Some(t) => recorded_title(*c) == Some(t@),
            None => recorded_title(*c) is None,
        },
{
    let counts: bool = match c.detection_method {
        DetectionMethod::Exchange => c.confirmation.is_some(),
        DetectionMethod::ExplicitMarker => true,
        DetectionMethod::Reversal => false,
    };
    if !counts {
        return None;
    }
    let answer = text::trim(c.response.as_str());
    if answer.as_str().unicode_len() == 0 {
        return None;
    }
    let lower = text::to_lowercase(c.question.as_str());
    let asked = text::trim(c.question.as_str());
    if machine_question_in(lower.as_str()) || asked.as_str().unicode_len() == 0 {
        return None;
    }
    let whole: String = match &c.decision_sentence {
        Some(s) => s.clone(),
        None => match &c.first_prose_line {
            Some(s) => s.clone(),
            None => helpers::truncate(c.question.as_str(), 120),
        },
    };
    let bare = trim_dots(whole.as_str());
    let title = text::trim(bare.as_str());
    if title.as_str().unicode_len() == 0 {
        None
    } else {
        Some(title)
    }
}

/// A decision to record.
#[derive(Debug, Clone, PartialEq, Eq)]
pub struct NewDecision {
    /// Its title.
    pub title: String,
    /// What it says.
    pub description: String,
    /// The session.
    pub session_id: String,
    /// How sure it is, as a JSON number.
    pub confidence: String,
}

/// What a new decision says.
#[verifier::ext_equal]
pub struct NewDecisionView {
    /// Its title.
    pub title: Seq<char>,
    /// What it says.
    pub description: Seq<char>,
    /// The session.
    pub session_id: Seq<char>,
    /// How sure it is.
    pub confidence: Seq<char>,
}

impl View for NewDecision {
    type V = NewDecisionView;

    open spec fn view(&self) -> NewDecisionView {
        NewDecisionView {
            title: self.title@,
            description: self.description@,
            session_id: self.session_id@,
            confidence: self.confidence@,
        }
    }
}

/// The decisions that are recorded of some candidates, in order.
pub open spec fn recorded(candidates: Seq<CandidateDecision>) -> Seq<NewDecisionView>
    decreases candidates.len(),
{
    if candidates.len() == 0 {
        Seq::empty()
    } else {
        let before = recorded(candidates.drop_last());
        let c = candidates.last();
        match recorded_title(c) {
            Some(title) => before.push(
                NewDecisionView {
                    title,
                    description: cut_text(c.response@, 500),
                    session_id: c.session_id@,
                    confidence: c.confidence@,
                },
            ),
            None => before,
        }
    }
}

/// What some new decisions say.
pub open spec fn decision_views(decisions: Seq<NewDecision>) -> Seq<NewDecisionView> {
    decisions.map_values(|d: NewDecision| d@)
}

/// The decisions that are recorded of some candidates.
pub fn decisions_to_record(candidates: &Vec<CandidateDecision>) -> (r: Vec<NewDecision>)
    ensures
        decision_views(r@) == recorded(candidates@),
{
    let mut out: Vec<NewDecision> = Vec::new();
    let mut i: usize = 0;
    proof {
        assert(candidates@.take(0) =~= Seq::empty());
        assert(decision_views(out@) =~= Seq::empty());
    }
    while i < candidates.len()
        invariant
            i <= candidates@.len(),
            decision_views(out@) == recorded(candidates@.take(i as int)),
        decreases candidates@.len() - i,
    {
        let c = &candidates[i];
        proof {
            let next = candidates@.take(i + 1);
            assert(next.drop_last() =~= candidates@.take(i as int));
            assert(next.last() == *c);
        }
        match title_to_record(c) {
            Some(title) => {
                let d = NewDecision {
                    title,
                    description: helpers::truncate(c.response.as_str(), 500),
                    session_id: c.session_id.clone(),
                    confidence: c.confidence.clone(),
                };
                proof {
                    assert(decision_views(out@.push(d)) =~= decision_views(out@).push(d@));
                }
                out.push(d);
            },
            None => {},
        }
        i = i + 1;
    }
    proof {
        assert(candidates@.take(i as int) =~= candidates@);
    }
    out
}

/// A decision that was taken back is never recorded, and no title is blank.
pub proof fn recorded_titles_say_something(c: CandidateDecision)
    ensures
        c.detection_method == DetectionMethod::Reversal ==> recorded_title(c) is None,
        recorded_title(c) matches Some(t) ==> t.len() > 0 && trimmed(c.question@).len() > 0
            && trimmed(c.response@).len() > 0,
{
}

/// What would be recorded of a candidate, for a reader.
pub open spec fn dry_lines(c: CandidateDecision) -> Seq<Seq<char>> {
    match recorded_title(c) {
        Some(title) => seq![
            "  [dry-run] \""@ + title + "\""@,
            "            session: "@ + c.short_id@ + " | confidence: "@ + c.confidence_shown@
                + "%"@,
            ""@,
        ],
        None => Seq::empty(),
    }
}

fn write_dry(c: &CandidateDecision) -> (r: Vec<String>)
    ensures
        views(r@) == dry_lines(*c),
{
    let mut out: Vec<String> = Vec::new();
    match title_to_record(c) {
        Some(title) => {
            text::say3(&mut out, "  [dry-run] \"", title.as_str(), "\"");
            text::say5(
                &mut out,
                "            session: ",
                c.short_id.as_str(),
                " | confidence: ",
                c.confidence_shown.as_str(),
                "%",
            );
            text::say(&mut out, "");
        },
        None => {},
    }
    proof {
        assert(views(out@) =~= dry_lines(*c));
    }
    out
}

/// What would be recorded, for a reader.
pub fn print_dry_run(candidates: &Vec<CandidateDecision>) -> (r: Vec<String>)
    ensures
        views(r@) == text::spread(candidates@, |c: CandidateDecision| dry_lines(c)),
{
    let mut out: Vec<String> = Vec::new();
    proof {
        assert(views(out@) =~= Seq::empty());
    }
    let ghost g = |c: CandidateDecision| dry_lines(c);
    text::say_all(&mut out, candidates, write_dry, Ghost(g));
    out
}

/// What is said after decisions were recorded, or would have been.
pub fn registered_line(registered: u32, dry_run: bool) -> (r: String)
    ensures
        r@ == (if dry_run {
            "Would register "@ + decimal(registered as nat) + " decision(s) (dry run)."@
        } else {
            "Registered "@ + decimal(registered as nat) + " decision(s) to the registry."@
        }),
{
    let count = text::number(registered as u64);
    if dry_run {
        text::cat3("Would register ", count.as_str(), " decision(s) (dry run).")
    } else {
        text::cat3("Registered ", count.as_str(), " decision(s) to the registry.")
    }
}

// ---------------------------------------------------------------------------
// What is shown
// ---------------------------------------------------------------------------

/// A candidate as a JSON object.
pub open spec fn candidate_view(c: CandidateDecision) -> JsonView {
    JsonView::Object(
        seq![
            ("timestamp"@, time_json(Some(c.timestamp), false)),
            ("session_id"@, JsonView::Text(c.session_id@)),
            ("entry_uuid"@, JsonView::Text(c.entry_uuid@)),
            ("detection_method"@, JsonView::Text(c.method_shown@)),
            ("confidence"@, JsonView::Number(c.confidence@)),
            ("question"@, JsonView::Text(c.question@)),
            ("response"@, JsonView::Text(c.response@)),
        ] + given_text("confirmation"@, c.confirmation),
    )
}

fn candidate_json(c: &CandidateDecision) -> (r: Json)
    ensures
        r@ == candidate_view(*c),
{
    let mut fields: Vec<(String, Json)> = Vec::new();
    json::put(&mut fields, "timestamp", json::of_time(Some(c.timestamp), false));
    json::put(&mut fields, "session_id", json::of_text(c.session_id.as_str()));
    json::put(&mut fields, "entry_uuid", json::of_text(c.entry_uuid.as_str()));
    json::put(&mut fields, "detection_method", json::of_text(c.method_shown.as_str()));
    json::put(&mut fields, "confidence", Json::Number(c.confidence.clone()));
    json::put(&mut fields, "question", json::of_text(c.question.as_str()));
    json::put(&mut fields, "response", json::of_text(c.response.as_str()));
    json::put_given_text(&mut fields, "confirmation", &c.confirmation);
    proof {
        assert(fields_view(fields@) =~= seq![
            ("timestamp"@, time_json(Some(c.timestamp), false)),
            ("session_id"@, JsonView::Text(c.session_id@)),
            ("entry_uuid"@, JsonView::Text(c.entry_uuid@)),
            ("detection_method"@, JsonView::Text(c.method_shown@)),
            ("confidence"@, JsonView::Number(c.confidence@)),
            ("question"@, JsonView::Text(c.question@)),
            ("response"@, JsonView::Text(c.response@)),
        ] + given_text("confirmation"@, c.confirmation));
    }
    Json::Object(fields)
}

/// The candidates as JSON.
pub fn output_json(candidates: &Vec<CandidateDecision>) -> (r: Json)
    ensures
        r@ == JsonView::Array(candidates@.map_values(|c: CandidateDecision| candidate_view(c))),
{
    let ghost g = |c: CandidateDecision| candidate_view(c);
    json::of_list(candidates, candidate_json, Ghost(g))
}

/// The sign of how a decision was noticed.
pub open spec fn method_icon(method: DetectionMethod) -> Seq<char> {
    match method {
        DetectionMethod::Exchange => "?->!"@,
        DetectionMethod::ExplicitMarker => "DEF"@,
        DetectionMethod::Reversal => "REV"@,
    }
}

/// The lines of what confirms a decision.
pub open spec fn confirmed_lines(confirmation: Option<String>) -> Seq<Seq<char>> {
    match confirmation {
        Some(c) => seq![""@, "    CONFIRMED: "@ + cut_text(c@, 150)],
        None => Seq::empty(),
    }
}

/// The first line of a candidate.
pub open spec fn candidate_head(c: CandidateDecision) -> Seq<char> {
    "  ["@ + padded_left(decimal(c.confidence_percent as nat), 3) + "%] ["@ + method_icon(
        c.detection_method,
    ) + "] "@ + shown_or(Some(c.timestamp), "%Y-%m-%d %H:%M"@, ""@) + " | "@ + c.short_id@ + " | "@
        + c.method_shown@
}

/// The lines of a candidate, and a rule where others follow.
pub open spec fn candidate_lines(c: CandidateDecision, last: bool) -> Seq<Seq<char>> {
    seq![
        candidate_head(c),
        ""@,
        "    Q: "@ + cut_text(c.question@, 200),
        ""@,
        "    A: "@ + cut_text(c.response@, 300),
    ] + confirmed_lines(c.confirmation) + (if last {
        Seq::empty()
    } else {
        seq![""@, "  ─────────────────────────────────────────"@]
    })
}

fn write_candidate(c: &CandidateDecision, last: bool) -> (r: Vec<String>)
    ensures
        views(r@) == candidate_lines(*c, last),
{
    let mut out: Vec<String> = Vec::new();
    let icon: &str = match c.detection_method {
        DetectionMethod::Exchange => "?->!",
        DetectionMethod::ExplicitMarker => "DEF",
        DetectionMethod::Reversal => "REV",
    };
    let digits = text::number(c.confidence_percent as u64);
    let percent = text::pad_left(digits.as_str(), 3);
    let date = time::show_or(Some(c.timestamp), "%Y-%m-%d %H:%M", "");
    let a = text::cat5("  [", percent.as_str(), "%] [", icon, "] ");
    let b = text::cat5(a.as_str(), date.as_str(), " | ", c.short_id.as_str(), " | ");
    text::say2(&mut out, b.as_str(), c.method_shown.as_str());
    let question = helpers::truncate(c.question.as_str(), 200);
    let answer = helpers::truncate(c.response.as_str(), 300);
    text::say(&mut out, "");
    text::say2(&mut out, "    Q: ", question.as_str());
    text::say(&mut out, "");
    text::say2(&mut out, "    A: ", answer.as_str());
    match &c.confirmation {
        Some(words) => {
            let cut = helpers::truncate(words.as_str(), 150);
            text::say(&mut out, "");
            text::say2(&mut out, "    CONFIRMED: ", cut.as_str());
        },
        None => {},
    }
    if !last {
        text::say(&mut out, "");
        text::say(&mut out, "  ─────────────────────────────────────────");
    }
    proof {
        assert(views(out@) =~= candidate_lines(*c, last));
    }
    out
}

/// The candidates, for a reader.
pub open spec fn text_lines(candidates: Seq<CandidateDecision>, quiet: bool) -> Seq<Seq<char>> {
    ((if quiet {
        Seq::empty()
    } else {
        seq![
            "Detected "@ + decimal(candidates.len()) + " candidate decision"@ + (
            if candidates.len() == 1 {
                ""@
            } else {
                "s"@
            }) + ":\n"@,
        ]
    }) + spread_numbered(
        candidates,
        |i: int, c: CandidateDecision| candidate_lines(c, i >= candidates.len() - 1),
    )).push(""@)
}

/// The candidates, for a reader.
pub fn output_text(candidates: &Vec<CandidateDecision>, quiet: bool) -> (r: Vec<String>)
    ensures
        views(r@) == text_lines(candidates@, quiet),
{
    let mut out: Vec<String> = Vec::new();
    let total: usize = candidates.len();
    if !quiet {
        let count = text::size(total);
        let plural: &str = if total == 1 {
            ""
        } else {
            "s"
        };
        text::say5(&mut out, "Detected ", count.as_str(), " candidate decision", plural, ":\n");
    }
    let ghost head = views(out@);
    let write = |i: usize, c: &CandidateDecision| -> (o: Vec<String>)
        ensures
            views(o@) == candidate_lines(*c, i >= total - 1),
        { write_candidate(c, total == 0 || i >= total - 1) };
    let ghost g = |i: int, c: CandidateDecision| candidate_lines(c, i >= candidates@.len() - 1);
    text::say_numbered(&mut out, candidates, write, Ghost(g));
    text::say(&mut out, "");
    proof {
        assert(head =~= (if quiet {
            Seq::empty()
        } else {
            seq![
                "Detected "@ + decimal(candidates@.len()) + " candidate decision"@ + (
                if candidates@.len() == 1 {
                    ""@
                } else {
                    "s"@
                }) + ":\n"@,
            ]
        }));
    }
    out
}

/// What is said where nothing was found; none where something was.
pub fn nothing_detected(count: usize, quiet: bool) -> (r: Option<Vec<String>>)
    ensures
        match r {
            Some(lines) => count == 0 && views(lines@) == (if quiet {
                Seq::empty()
            } else {
                seq!["No candidate decisions detected."@]
            }),
            None => count > 0,
        },
{
    helpers::say_if_empty(count, quiet, "No candidate decisions detected.")
}

// ---------------------------------------------------------------------------
// Which candidates are recorded
// ---------------------------------------------------------------------------

/// A candidate is recorded if and only if it was found as an exchange that was confirmed or by a
/// plain marker, its answer and its question say something, the question is none that a machine
/// wrote, and a title is left.
pub proof fn plain_candidates_are_recorded(c: CandidateDecision)
    ensures
        recorded_title(c) is Some <==> {
            &&& c.detection_method is ExplicitMarker || (c.detection_method is Exchange
                && c.confirmation is Some)
            &&& trimmed(c.response@).len() > 0
            &&& trimmed(c.question@).len() > 0
            &&& !begins(lowercase(c.question@), "this session is being continued"@)
            &&& !begins(lowercase(c.question@), "in the last session"@)
            &&& !begins(lowercase(c.question@), "<task-notification"@)
            &&& !begins(lowercase(c.question@), "<system-reminder"@)
            &&& title_of(c).len() > 0
        },
        recorded_title(c) matches Some(t) ==> t == title_of(c),
{
}

/// The title is the sentence that decides; without one the first line of prose; without that the
/// question, cut to a hundred and twenty characters. White space around it and dots at the end of
/// it are left out.
pub proof fn titles_come_from_the_answer(c: CandidateDecision)
    ensures
        c.decision_sentence matches Some(s) ==> title_of(c) == trimmed(without_dots(s@)),
        c.decision_sentence is None && c.first_prose_line is Some ==> title_of(c) == trimmed(
            without_dots(c.first_prose_line->0@),
        ),
        c.decision_sentence is None && c.first_prose_line is None && c.question@.len() <= 120
            ==> title_of(c) == trimmed(without_dots(c.question@)),
        c.decision_sentence is None && c.first_prose_line is None && c.question@.len() > 120
            ==> title_of(c) == trimmed(without_dots(c.question@.take(120) + "..."@)),
{
}

/// A text without its dots is how the text begins, does not end with three dots, and is the text
/// itself where that does not.
pub proof fn dots_are_left_out(s: Seq<char>)
    ensures
        ({
            let r = without_dots(s);
            &&& r.len() <= s.len() && r == s.take(r.len() as int)
            &&& forall|i: int| r.len() <= i < s.len() ==> #[trigger] s[i] == '.'
            &&& (s.len() - r.len()) % 3 == 0
            &&& !(r.len() >= 3 && r[r.len() - 1] == '.' && r[r.len() - 2] == '.' && r[r.len() - 3]
                == '.')
        }),
    decreases s.len(),
{
    let r = without_dots(s);
    let dots = seq!['.', '.', '.'];
    if s.len() >= 3 && ends(s, dots) {
        let front = s.take(s.len() - 3);
        dots_are_left_out(front);
        assert(r =~= s.take(r.len() as int));
        let tail = s.subrange(s.len() - 3, s.len() as int);
        assert(tail == dots);
        assert forall|i: int| r.len() <= i < s.len() implies #[trigger] s[i] == '.' by {
            if i < front.len() {
                assert(front[i] == s[i]);
            } else {
                assert(tail[i - (s.len() - 3)] == s[i]);
            }
        }
    } else {
        assert(s.take(s.len() as int) =~= s);
        if s.len() >= 3 && s[s.len() - 1] == '.' && s[s.len() - 2] == '.' && s[s.len() - 3] == '.' {
            assert(s.subrange(s.len() - 3, s.len() as int) =~= dots);
        }
    }
}

/// A further candidate adds at most one decision, behind those before it, with its session, its
/// confidence and its answer cut to five hundred characters.
pub proof fn candidates_add_decisions(candidates: Seq<CandidateDecision>, c: CandidateDecision)
    ensures
        recorded_title(c) is None ==> recorded(candidates.push(c)) == recorded(candidates),
        recorded_title(c) is Some ==> {
            let (before, after) = (recorded(candidates), recorded(candidates.push(c)));
            &&& after.len() == before.len() + 1
            &&& after.drop_last() == before
            &&& after.last().title == recorded_title(c)->0
            &&& after.last().session_id == c.session_id@
            &&& after.last().confidence == c.confidence@
            &&& c.response@.len() <= 500 ==> after.last().description == c.response@
            &&& c.response@.len() > 500 ==> after.last().description == c.response@.take(500)
                + "..."@
        },
{
    assert(candidates.push(c).drop_last() =~= candidates);
    assert(recorded(candidates.push(c)).drop_last() =~= recorded(candidates)
        || recorded_title(c) is None);
}

// ---------------------------------------------------------------------------
// What calls hand back
// ---------------------------------------------------------------------------

/// A decision is recorded only where recording was asked for without a trial, something was
/// found and the project is known; a trial never records. The project is asked for only where
/// something would be recorded.
pub proof fn recording_needs_a_project(
    found: usize,
    quiet: bool,
    register: bool,
    dry_run: bool,
    project: Option<String>,
    r: Result<DetectPlan, SnatchError>,
)
    ensures
        call_ensures(run, (found, quiet, register, dry_run, &project), r) ==> {
            &&& (r matches Ok(p) && p is Register) <==> found > 0 && register && !dry_run
                && project is Some
            &&& (r matches Ok(p) && p is DryRun) <==> found > 0 && dry_run && project is Some
            &&& (r matches Ok(p) && p is Show) <==> found > 0 && !register && !dry_run
            &&& (r matches Ok(p) && p is Nothing) <==> found == 0
            &&& r is Err <==> found > 0 && (register || dry_run) && project is None
            &&& r matches Ok(DetectPlan::Register(s)) ==> s@ == project->0@
            &&& r matches Ok(DetectPlan::DryRun(s)) ==> s@ == project->0@
            &&& r matches Ok(DetectPlan::Nothing(told)) ==> told == !quiet
        },
{
}

/// The limit counts unless there is none: then it is no smaller than any other.
pub proof fn limits_count_unless_waived(limit: usize, r: usize, s: usize, n: usize)
    ensures
        call_ensures(effective_limit, (limit, false), r) ==> r == limit,
        call_ensures(effective_limit, (limit, true), s) ==> n <= s,
{
}

} // verus!
