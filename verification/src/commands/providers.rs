//! The providers: what is known of each of them.
use vstd::prelude::*;

use crate::json;
use crate::json::{fields_view, number_json, optional_text, Json, JsonView};
use crate::order;
use crate::text;
use crate::text::{decimal, joined, spread, views};

verus! {

/// The form in which something is stored.
#[derive(Debug, Clone, Copy, PartialEq, Eq, Structural)]
pub enum ArtifactForm {
    /// A file.
    PlainFile,
    /// A file that is packed.
    CompressedFile,
    /// A database.
    Database,
    /// Another form.
    Other,
}

/// Something that is stored of a session.
#[derive(Debug, Clone, Copy, PartialEq, Eq)]
pub struct Artifact {
    /// Its form.
    pub form: ArtifactForm,
    /// Whether it was put away.
    pub archived: bool,
}

/// What came of looking through a provider.
#[derive(Debug, Clone, PartialEq, Eq)]
pub enum ProviderScan {
    /// The provider could not be set up.
    NotConstructed {
        /// Why.
        reason: String,
    },
    /// Its sessions could not be listed.
    Failed {
        /// Why.
        error: String,
    },
    /// Its sessions were listed.
    Listed {
        /// The number of sessions.
        sessions: usize,
        /// What is stored of them.
        artifacts: Vec<Artifact>,
    },
}

/// A provider and what came of looking through it.
#[derive(Debug, Clone, PartialEq, Eq)]
pub struct ProviderEntry {
    /// Its id.
    pub id: String,
    /// Where its sessions are.
    pub root: Option<String>,
    /// What came of looking through it.
    pub scan: ProviderScan,
}

/// Something stored has a form.
pub open spec fn has_form(form: ArtifactForm) -> spec_fn(Artifact) -> bool {
    |a: Artifact| a.form == form
}

/// Something stored was put away.
pub open spec fn is_archived() -> spec_fn(Artifact) -> bool {
    |a: Artifact| a.archived
}

/// A count under a name, where it is not nought.
pub open spec fn count_if_any(name: Seq<char>, count: nat) -> Seq<(Seq<char>, nat)> {
    if count > 0 {
        seq![(name, count)]
    } else {
        Seq::empty()
    }
}

/// How often each form occurs, in the order of the names.
pub open spec fn form_counts(artifacts: Seq<Artifact>) -> Seq<(Seq<char>, nat)> {
    count_if_any("compressed"@, artifacts.filter(has_form(ArtifactForm::CompressedFile)).len())
        + count_if_any("database"@, artifacts.filter(has_form(ArtifactForm::Database)).len())
        + count_if_any("other"@, artifacts.filter(has_form(ArtifactForm::Other)).len())
        + count_if_any("plain"@, artifacts.filter(has_form(ArtifactForm::PlainFile)).len())
}

/// What is said of some counts.
pub open spec fn counts_view(counts: Seq<(String, usize)>) -> Seq<(Seq<char>, nat)> {
    counts.map_values(|c: (String, usize)| (c.0@, c.1 as nat))
}

fn count_form(artifacts: &Vec<Artifact>, form: ArtifactForm) -> (r: usize)
    ensures
        r == artifacts@.filter(has_form(form)).len(),
{
    let ghost p = has_form(form);
    let test = |a: &Artifact| -> (o: bool)
        ensures
            o == p(*a),
        { a.form == form };
    order::count(artifacts, test, Ghost(p))
}

fn add_count(counts: &mut Vec<(String, usize)>, name: &str, count: usize)
    ensures
        counts_view(final(counts)@) == counts_view(old(counts)@) + count_if_any(
            name@,
            count as nat,
        ),
{
    let ghost start = counts_view(counts@);
    if count > 0 {
        counts.push((name.to_owned(), count));
    }
    proof {
        assert(counts_view(counts@) =~= start + count_if_any(name@, count as nat));
    }
}

/// How often each form occurs, in the order of the names.
pub fn count_forms(artifacts: &Vec<Artifact>) -> (r: Vec<(String, usize)>)
    ensures
        counts_view(r@) == form_counts(artifacts@),
{
    let mut counts: Vec<(String, usize)> = Vec::new();
    let compressed = count_form(artifacts, ArtifactForm::CompressedFile);
    let database = count_form(artifacts, ArtifactForm::Database);
    let other = count_form(artifacts, ArtifactForm::Other);
    let plain = count_form(artifacts, ArtifactForm::PlainFile);
    add_count(&mut counts, "compressed", compressed);
    proof {
        assert(counts_view(counts@) =~= count_if_any("compressed"@, compressed as nat));
    }
    add_count(&mut counts, "database", database);
    add_count(&mut counts, "other", other);
    add_count(&mut counts, "plain", plain);
    counts
}

fn count_archived(artifacts: &Vec<Artifact>) -> (r: usize)
    ensures
        r == artifacts@.filter(is_archived()).len(),
{
    let ghost p = is_archived();
    let test = |a: &Artifact| -> (o: bool)
        ensures
            o == p(*a),
        { a.archived };
    order::count(artifacts, test, Ghost(p))
}

/// Every artifact is counted under one form.
pub proof fn every_artifact_is_counted(artifacts: Seq<Artifact>)
    ensures
        artifacts.filter(has_form(ArtifactForm::PlainFile)).len() + artifacts.filter(
            has_form(ArtifactForm::CompressedFile),
        ).len() + artifacts.filter(has_form(ArtifactForm::Database)).len() + artifacts.filter(
            has_form(ArtifactForm::Other),
        ).len() == artifacts.len(),
    decreases artifacts.len(),
{
    broadcast use Seq::lemma_filter_push;

    if artifacts.len() > 0 {
        let front = artifacts.drop_last();
        every_artifact_is_counted(front);
        assert(artifacts =~= front.push(artifacts.last()));
    } else {
        assert(artifacts =~= Seq::empty());
    }
}

// ---------------------------------------------------------------------------
// As JSON
// ---------------------------------------------------------------------------

/// The counts as a JSON object.
pub open spec fn counts_json(counts: Seq<(Seq<char>, nat)>) -> JsonView {
    JsonView::Object(counts.map_values(|c: (Seq<char>, nat)| (c.0, number_json(c.1))))
}

/// The fields that tell what came of looking through a provider.
pub open spec fn scan_fields(scan: ProviderScan) -> Seq<(Seq<char>, JsonView)> {
    match scan {
        ProviderScan::NotConstructed { reason } => seq![
            ("scan_ok"@, JsonView::Bool(false)),
            ("available"@, JsonView::Bool(false)),
            ("unavailable_reason"@, JsonView::Text(reason@)),
        ],
        ProviderScan::Failed { error } => seq![
            ("scan_ok"@, JsonView::Bool(false)),
            ("available"@, JsonView::Bool(false)),
            ("session_scan_error"@, JsonView::Text(error@)),
        ],
        ProviderScan::Listed { sessions, artifacts } => seq![
            ("scan_ok"@, JsonView::Bool(true)),
            ("available"@, JsonView::Bool(true)),
            ("sessions"@, number_json(sessions as nat)),
            ("artifact_formats"@, counts_json(form_counts(artifacts@))),
            ("archived_artifacts"@, number_json(artifacts@.filter(is_archived()).len())),
        ],
    }
}

/// The fields of a provider.
pub open spec fn entry_fields(e: ProviderEntry) -> Seq<(Seq<char>, JsonView)> {
    seq![
        ("provider"@, JsonView::Text(e.id@)),
        ("root"@, optional_text(e.root)),
        ("constructed"@, JsonView::Bool(!(e.scan is NotConstructed))),
    ] + scan_fields(e.scan)
}

fn forms_json(artifacts: &Vec<Artifact>) -> (r: Json)
    ensures
        r@ == counts_json(form_counts(artifacts@)),
{
    let counts = count_forms(artifacts);
    let mut fields: Vec<(String, Json)> = Vec::new();
    let ghost all = counts_view(counts@).map_values(
        |c: (Seq<char>, nat)| (c.0, number_json(c.1)),
    );
    let mut i: usize = 0;
    proof {
        assert(fields_view(fields@) =~= all.take(0));
    }
    while i < counts.len()
        invariant
            i <= counts@.len(),
            all.len() == counts@.len(),
            forall|k: int|
                0 <= k < counts@.len() ==> #[trigger] all[k] == (
                    counts@[k].0@,
                    number_json(counts@[k].1 as nat),
                ),
            fields_view(fields@) == all.take(i as int),
        decreases counts@.len() - i,
    {
        json::put(&mut fields, counts[i].0.as_str(), json::of_size(counts[i].1));
        proof {
            assert(all.take(i + 1) =~= all.take(i as int).push(all[i as int]));
        }
        i = i + 1;
    }
    proof {
        assert(all.take(i as int) =~= all);
    }
    Json::Object(fields)
}

fn entry_json(e: &ProviderEntry) -> (r: Json)
    ensures
        r@ == JsonView::Object(entry_fields(*e)),
{
    let mut fields: Vec<(String, Json)> = Vec::new();
    let constructed: bool = match &e.scan {
        ProviderScan::NotConstructed { .. } => false,
        _ => true,
    };
    json::put(&mut fields, "provider", json::of_text(e.id.as_str()));
    json::put(&mut fields, "root", json::of_option(&e.root));
    json::put(&mut fields, "constructed", Json::Bool(constructed));
    match &e.scan {
        ProviderScan::NotConstructed { reason } => {
            json::put(&mut fields, "scan_ok", Json::Bool(false));
            json::put(&mut fields, "available", Json::Bool(false));
            json::put(&mut fields, "unavailable_reason", json::of_text(reason.as_str()));
        },
        ProviderScan::Failed { error } => {
            json::put(&mut fields, "scan_ok", Json::Bool(false));
            json::put(&mut fields, "available", Json::Bool(false));
            json::put(&mut fields, "session_scan_error", json::of_text(error.as_str()));
        },
        ProviderScan::Listed { sessions, artifacts } => {
            json::put(&mut fields, "scan_ok", Json::Bool(true));
            json::put(&mut fields, "available", Json::Bool(true));
            json::put(&mut fields, "sessions", json::of_size(*sessions));
            json::put(&mut fields, "artifact_formats", forms_json(artifacts));
            let archived = count_archived(artifacts);
            json::put(&mut fields, "archived_artifacts", json::of_size(archived));
        },
    }
    proof {
        assert(fields_view(fields@) =~= entry_fields(*e));
    }
    Json::Object(fields)
}

/// The providers as JSON.
pub fn providers_json(entries: &Vec<ProviderEntry>) -> (r: Json)
    ensures
        r@ == JsonView::Array(
            entries@.map_values(|e: ProviderEntry| JsonView::Object(entry_fields(e))),
        ),
{
    let ghost g = |e: ProviderEntry| JsonView::Object(entry_fields(e));
    json::of_list(entries, entry_json, Ghost(g))
}

// ---------------------------------------------------------------------------
// For a reader
// ---------------------------------------------------------------------------

/// The counts on one line.
pub open spec fn counts_words(counts: Seq<(Seq<char>, nat)>) -> Seq<char> {
    joined(counts.map_values(|c: (Seq<char>, nat)| c.0 + " ×"@ + decimal(c.1)), ", "@)
}

/// The lines of what was listed.
pub open spec fn listed_lines(sessions: usize, artifacts: Seq<Artifact>) -> Seq<Seq<char>> {
    seq!["  status: available"@, "  sessions: "@ + decimal(sessions as nat)] + (
    if counts_words(form_counts(artifacts)).len() == 0 {
        Seq::empty()
    } else {
        seq!["  artifact formats: "@ + counts_words(form_counts(artifacts))]
    }) + (if artifacts.filter(is_archived()).len() > 0 {
        seq!["  archived artifacts: "@ + decimal(artifacts.filter(is_archived()).len())]
    } else {
        Seq::empty()
    })
}

/// The lines of what came of looking through a provider.
pub open spec fn scan_lines(scan: ProviderScan) -> Seq<Seq<char>> {
    match scan {
        ProviderScan::NotConstructed { reason } => seq![
            "  status: unavailable (not constructed) — "@ + reason@,
        ],
        ProviderScan::Failed { error } => seq![
            "  status: unavailable (constructed, but session scan failed: "@ + error@ + ")"@,
        ],
        ProviderScan::Listed { sessions, artifacts } => listed_lines(sessions, artifacts@),
    }
}

/// The lines of a provider.
pub open spec fn entry_lines(e: ProviderEntry) -> Seq<Seq<char>> {
    seq![e.id@] + (match e.root {
        Some(root) => seq!["  root: "@ + root@],
        None => Seq::empty(),
    }) + scan_lines(e.scan)
}

fn write_words(artifacts: &Vec<Artifact>) -> (r: String)
    ensures
        r@ == counts_words(form_counts(artifacts@)),
{
    let counts = count_forms(artifacts);
    let mut words: Vec<String> = Vec::new();
    let write = |c: &(String, usize)| -> (o: String)
        ensures
            o@ == c.0@ + " ×"@ + decimal(c.1 as nat),
        {
            let count = text::size(c.1);
            text::cat3(c.0.as_str(), " ×", count.as_str())
        };
    let ghost g = |c: (String, usize)| c.0@ + " ×"@ + decimal(c.1 as nat);
    text::say_each(&mut words, &counts, write, Ghost(g));
    proof {
        assert(views(words@) =~= counts_view(counts@).map_values(
            |c: (Seq<char>, nat)| c.0 + " ×"@ + decimal(c.1),
        ));
    }
    text::join(&words, ", ")
}

fn write_entry(e: &ProviderEntry) -> (r: Vec<String>)
    ensures
        views(r@) == entry_lines(*e),
{
    let mut out: Vec<String> = Vec::new();
    text::say(&mut out, e.id.as_str());
    match &e.root {
        Some(root) => text::say2(&mut out, "  root: ", root.as_str()),
        None => {},
    }
    match &e.scan {
        ProviderScan::NotConstructed { reason } => text::say2(
            &mut out,
            "  status: unavailable (not constructed) — ",
            reason.as_str(),
        ),
        ProviderScan::Failed { error } => text::say3(
            &mut out,
            "  status: unavailable (constructed, but session scan failed: ",
            error.as_str(),
            ")",
        ),
        ProviderScan::Listed { sessions, artifacts } => {
            let count = text::size(*sessions);
            let words = write_words(artifacts);
            let archived = count_archived(artifacts);
            text::say(&mut out, "  status: available");
            text::say2(&mut out, "  sessions: ", count.as_str());
            if words.as_str().unicode_len() > 0 {
                text::say2(&mut out, "  artifact formats: ", words.as_str());
            }
            if archived > 0 {
                let digits = text::size(archived);
                text::say2(&mut out, "  archived artifacts: ", digits.as_str());
            }
        },
    }
    proof {
        assert(views(out@) =~= entry_lines(*e));
    }
    out
}

/// The providers, for a reader.
pub fn print_providers(entries: &Vec<ProviderEntry>) -> (r: Vec<String>)
    ensures
        views(r@) == spread(entries@, |e: ProviderEntry| entry_lines(e)),
{
    let mut out: Vec<String> = Vec::new();
    proof {
        assert(views(out@) =~= Seq::empty());
    }
    let ghost g = |e: ProviderEntry| entry_lines(e);
    text::say_all(&mut out, entries, write_entry, Ghost(g));
    out
}

// ---------------------------------------------------------------------------
// What is counted
// ---------------------------------------------------------------------------

/// Under each name stands the number of files of that form, and a name without files is left out.
pub proof fn forms_are_counted_under_their_names(artifacts: Seq<Artifact>)
    ensures
        ({
            let counts = form_counts(artifacts);
            let plain = artifacts.filter(|a: Artifact| a.form is PlainFile).len();
            let compressed = artifacts.filter(|a: Artifact| a.form is CompressedFile).len();
            let database = artifacts.filter(|a: Artifact| a.form is Database).len();
            let other = artifacts.filter(|a: Artifact| a.form is Other).len();
            &&& plain > 0 ==> counts.contains(("plain"@, plain))
            &&& compressed > 0 ==> counts.contains(("compressed"@, compressed))
            &&& database > 0 ==> counts.contains(("database"@, database))
            &&& other > 0 ==> counts.contains(("other"@, other))
            &&& forall|i: int| 0 <= i < counts.len() ==> (#[trigger] counts[i]).1 > 0
        }),
{
    let p = |a: Artifact| a.form is PlainFile;
    let c = |a: Artifact| a.form is CompressedFile;
    let d = |a: Artifact| a.form is Database;
    let o = |a: Artifact| a.form is Other;
    assert(has_form(ArtifactForm::PlainFile) =~= p);
    assert(has_form(ArtifactForm::CompressedFile) =~= c);
    assert(has_form(ArtifactForm::Database) =~= d);
    assert(has_form(ArtifactForm::Other) =~= o);
    let x = count_if_any("compressed"@, artifacts.filter(c).len());
    let y = x + count_if_any("database"@, artifacts.filter(d).len());
    let z = y + count_if_any("other"@, artifacts.filter(o).len());
    let counts = form_counts(artifacts);
    assert(counts == z + count_if_any("plain"@, artifacts.filter(p).len()));
    if artifacts.filter(p).len() > 0 {
        assert(counts[z.len() as int] == ("plain"@, artifacts.filter(p).len()));
    }
    if artifacts.filter(c).len() > 0 {
        assert(counts[0] == ("compressed"@, artifacts.filter(c).len()));
    }
    if artifacts.filter(d).len() > 0 {
        assert(counts[x.len() as int] == ("database"@, artifacts.filter(d).len()));
    }
    if artifacts.filter(o).len() > 0 {
        assert(counts[y.len() as int] == ("other"@, artifacts.filter(o).len()));
    }
}

/// The archived files are those that say so.
pub proof fn archived_files_say_so(artifacts: Seq<Artifact>, a: Artifact)
    ensures
        artifacts.filter(is_archived()).contains(a) <==> artifacts.contains(a) && a.archived,
{
    order::filtering_is_exact(artifacts, is_archived());
    assert(artifacts.filter(is_archived()).contains(a) <==> artifacts.contains(a) && is_archived()(
        a,
    ));
}

} // verus!
