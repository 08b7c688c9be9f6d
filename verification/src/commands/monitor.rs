//! What keeps going wrong in a project: what is brought up, and how.
use vstd::prelude::*;

use crate::commands::OutputFormat;
use crate::json;
use crate::json::{fields_view, Json, JsonView};
use crate::order;
use crate::text;
use crate::text::{decimal, repeated, spread_numbered, views};

verus! {

/// Something that keeps going wrong.
#[derive(Debug, Clone, PartialEq, Eq)]
pub struct Insight {
    /// Its kind.
    pub kind: String,
    /// What it is.
    pub title: String,
    /// What it is known from.
    pub evidence: String,
    /// How bad it is, as a JSON number.
    pub severity: String,
    /// What it is recognized by.
    pub fingerprint: String,
    /// Whether it was not brought up lately.
    pub is_due: bool,
}

/// An insight that was not brought up lately.
pub open spec fn is_due() -> spec_fn(Insight) -> bool {
    |i: Insight| i.is_due
}

/// The insights that may be brought up: all of them, but for those that were brought up lately
/// where nobody asked.
pub fn choose_candidates(all: Vec<Insight>, inject: bool) -> (r: Vec<Insight>)
    ensures
        r@ == (if inject {
            all@.filter(is_due())
        } else {
            all@
        }),
{
    if inject {
        let ghost p = is_due();
        let test = |i: &Insight| -> (o: bool)
            ensures
                o == p(*i),
            { i.is_due };
        order::keep(all, test, Ghost(p))
    } else {
        all
    }
}

/// Whether it is written down what was brought up: only where nobody asked, it is wanted, and
/// there is a place for it.
pub fn marks_shown(inject: bool, mark_shown: bool, has_directory: bool) -> (r: bool)
    ensures
        r == (inject && mark_shown && has_directory),
{
    inject && mark_shown && has_directory
}

/// An insight as a JSON object.
pub open spec fn insight_view(i: Insight) -> JsonView {
    JsonView::Object(
        seq![
            ("kind"@, JsonView::Text(i.kind@)),
            ("title"@, JsonView::Text(i.title@)),
            ("evidence"@, JsonView::Text(i.evidence@)),
            ("severity"@, JsonView::Number(i.severity@)),
            ("fingerprint"@, JsonView::Text(i.fingerprint@)),
        ],
    )
}

fn insight_json(i: &Insight) -> (r: Json)
    ensures
        r@ == insight_view(*i),
{
    let mut fields: Vec<(String, Json)> = Vec::new();
    json::put(&mut fields, "kind", json::of_text(i.kind.as_str()));
    json::put(&mut fields, "title", json::of_text(i.title.as_str()));
    json::put(&mut fields, "evidence", json::of_text(i.evidence.as_str()));
    json::put(&mut fields, "severity", Json::Number(i.severity.clone()));
    json::put(&mut fields, "fingerprint", json::of_text(i.fingerprint.as_str()));
    proof {
        assert(fields_view(fields@) =~= seq![
            ("kind"@, JsonView::Text(i.kind@)),
            ("title"@, JsonView::Text(i.title@)),
            ("evidence"@, JsonView::Text(i.evidence@)),
            ("severity"@, JsonView::Number(i.severity@)),
            ("fingerprint"@, JsonView::Text(i.fingerprint@)),
        ]);
    }
    Json::Object(fields)
}

/// The insights as JSON.
pub open spec fn insights_view(insights: Seq<Insight>) -> JsonView {
    JsonView::Array(insights.map_values(|i: Insight| insight_view(i)))
}

/// The insights as JSON.
pub fn print_json(insights: &Vec<Insight>) -> (r: Json)
    ensures
        r@ == insights_view(insights@),
{
    let ghost g = |i: Insight| insight_view(i);
    json::of_list(insights, insight_json, Ghost(g))
}

/// What is brought up where nobody asked; nothing where there is nothing.
pub open spec fn inject_lines(insights: Seq<Insight>) -> Seq<Seq<char>> {
    if insights.len() == 0 {
        Seq::empty()
    } else {
        seq!["### ⚠ Active monitor (snatch)"@, ""@] + insights.map_values(
            |i: Insight| "- **"@ + i.title@ + "** — "@ + i.evidence@,
        )
    }
}

/// What is brought up where nobody asked; nothing where there is nothing.
pub fn print_inject(insights: &Vec<Insight>) -> (r: Vec<String>)
    ensures
        views(r@) == inject_lines(insights@),
{
    let mut out: Vec<String> = Vec::new();
    if insights.len() > 0 {
        text::say(&mut out, "### ⚠ Active monitor (snatch)");
        text::say(&mut out, "");
        let write = |i: &Insight| -> (o: String)
            ensures
                o@ == "- **"@ + i.title@ + "** — "@ + i.evidence@,
            { text::cat4("- **", i.title.as_str(), "** — ", i.evidence.as_str()) };
        let ghost g = |i: Insight| "- **"@ + i.title@ + "** — "@ + i.evidence@;
        text::say_each(&mut out, insights, write, Ghost(g));
    }
    proof {
        assert(views(out@) =~= inject_lines(insights@));
    }
    out
}

/// The lines of an insight.
pub open spec fn insight_lines(n: int, i: Insight) -> Seq<Seq<char>> {
    seq![
        "  "@ + decimal((n + 1) as nat) + ". ["@ + i.severity@ + "] "@ + i.title@,
        "     "@ + i.evidence@,
    ]
}

fn write_insight(n: usize, i: &Insight) -> (r: Vec<String>)
    requires
        n < usize::MAX,
    ensures
        views(r@) == insight_lines(n as int, *i),
{
    let mut out: Vec<String> = Vec::new();
    let number = text::size(n + 1);
    let a = text::cat5("  ", number.as_str(), ". [", i.severity.as_str(), "] ");
    text::say2(&mut out, a.as_str(), i.title.as_str());
    text::say2(&mut out, "     ", i.evidence.as_str());
    proof {
        assert(views(out@) =~= insight_lines(n as int, *i));
    }
    out
}

/// The insights, for a reader.
pub open spec fn human_lines(project: Seq<char>, insights: Seq<Insight>) -> Seq<Seq<char>> {
    if insights.len() == 0 {
        seq!["No monitor insights for '"@ + project + "'."@]
    } else {
        seq![
            "Monitor insights for '"@ + project + "' ("@ + decimal(insights.len()) + "):"@,
            repeated('-', 60),
        ] + spread_numbered(insights, |n: int, i: Insight| insight_lines(n, i))
    }
}

/// The insights, for a reader.
pub fn print_human(project: &str, insights: &Vec<Insight>) -> (r: Vec<String>)
    ensures
        views(r@) == human_lines(project@, insights@),
{
    let mut out: Vec<String> = Vec::new();
    if insights.len() == 0 {
        text::say3(&mut out, "No monitor insights for '", project, "'.");
        proof {
            assert(views(out@) =~= human_lines(project@, insights@));
        }
        return out;
    }
    let total: usize = insights.len();
    let count = text::size(total);
    let rule = text::repeat('-', 60);
    text::say5(&mut out, "Monitor insights for '", project, "' (", count.as_str(), "):");
    text::say(&mut out, rule.as_str());
    proof {
        assert(views(out@) =~= seq![
            "Monitor insights for '"@ + project@ + "' ("@ + decimal(insights@.len()) + "):"@,
            repeated('-', 60),
        ]);
    }
    let write = |n: usize, i: &Insight| -> (o: Vec<String>)
        requires
            n < total,
        ensures
            views(o@) == insight_lines(n as int, *i),
        { write_insight(n, i) };
    let ghost g = |n: int, i: Insight| insight_lines(n, i);
    text::say_numbered(&mut out, insights, write, Ghost(g));
    out
}

/// What is put out.
#[derive(Debug)]
pub enum MonitorOutput {
    /// A JSON value.
    Value(Json),
    /// Lines.
    Lines(Vec<String>),
}

/// What is put out of the insights that were chosen.
pub fn run(format: OutputFormat, inject: bool, project: &str, top: &Vec<Insight>) -> (r:
    MonitorOutput)
    ensures
        if format == OutputFormat::Json {
            r matches MonitorOutput::Value(j) && j@ == insights_view(top@)
        } else if inject {
            r matches MonitorOutput::Lines(l) && views(l@) == inject_lines(top@)
        } else {
            r matches MonitorOutput::Lines(l) && views(l@) == human_lines(project@, top@)
        },
{
    if format == OutputFormat::Json {
        MonitorOutput::Value(print_json(top))
    } else if inject {
        MonitorOutput::Lines(print_inject(top))
    } else {
        MonitorOutput::Lines(print_human(project, top))
    }
}

/// Nobody is bothered where nothing is due: what is brought up unasked is then empty.
pub proof fn nothing_due_is_silent(all: Seq<Insight>)
    requires
        forall|i: int| 0 <= i < all.len() ==> !(#[trigger] all[i]).is_due,
    ensures
        inject_lines(all.filter(is_due())) == Seq::<Seq<char>>::empty(),
{
    if all.filter(is_due()).len() > 0 {
        let x = all.filter(is_due())[0];
        assert(all.filter(is_due()).contains(x));
        order::filtered_items_fit(all, is_due(), x);
        let k = choose|k: int| 0 <= k < all.len() && all[k] == x;
        assert(!all[k].is_due);
    }
}

// ---------------------------------------------------------------------------
// What is due
// ---------------------------------------------------------------------------

/// An insight is put in if and only if it is due.
pub proof fn due_insights_are_put_in(all: Seq<Insight>, i: Insight)
    ensures
        all.filter(is_due()).contains(i) <==> all.contains(i) && i.is_due,
{
    order::filtering_is_exact(all, is_due());
    assert(all.filter(is_due()).contains(i) <==> all.contains(i) && is_due()(i));
}

/// Unasked, an insight is brought up if and only if it is due; on demand, every one is, in order.
pub proof fn candidates_are_due_or_asked_for(
    all: Vec<Insight>,
    i: Insight,
    unasked: Vec<Insight>,
    asked: Vec<Insight>,
)
    ensures
        call_ensures(choose_candidates, (all, true), unasked) ==> (unasked@.contains(i)
            <==> all@.contains(i) && i.is_due),
        call_ensures(choose_candidates, (all, false), asked) ==> asked@ == all@,
{
    due_insights_are_put_in(all@, i);
}

} // verus!
