//! Sessions of any provider: their keys, the projects they belong to and the edges between them.
use vstd::prelude::*;

use crate::json;
use crate::json::{fields_view, Json, JsonView};
use crate::names;
use crate::text;
use crate::text::{precedes, views};

verus! {

/// The identity of a session across providers.
#[derive(Debug, Clone, PartialEq, Eq)]
pub struct LogicalSessionKey {
    /// The provider that owns the session.
    pub provider: String,
    /// The part of the provider in which the native id is unique; empty for the whole of it.
    pub namespace: String,
    /// The id that the provider gave.
    pub native_id: String,
    /// The form under which the session is shown and asked for.
    pub qualified: String,
}

/// What two keys are compared by: provider, namespace and native id.
pub struct KeyView {
    /// The provider.
    pub provider: Seq<char>,
    /// The namespace.
    pub namespace: Seq<char>,
    /// The native id.
    pub native_id: Seq<char>,
}

impl View for LogicalSessionKey {
    type V = KeyView;

    open spec fn view(&self) -> KeyView {
        KeyView {
            provider: self.provider@,
            namespace: self.namespace@,
            native_id: self.native_id@,
        }
    }
}

/// Equal keys have equal forms: the form is made of what keys are compared by, so a list of keys
/// whose forms their providers wrote is such a list.
pub open spec fn forms_agree(keys: Seq<LogicalSessionKey>) -> bool {
    forall|a: LogicalSessionKey, b: LogicalSessionKey|
        #[trigger] keys.contains(a) && #[trigger] keys.contains(b) && a@ == b@ ==> a.qualified@
            == b.qualified@
}

/// The order of keys: by provider, then namespace, then native id.
pub open spec fn key_precedes(a: KeyView, b: KeyView) -> bool {
    if a.provider != b.provider {
        precedes(a.provider, b.provider)
    } else if a.namespace != b.namespace {
        precedes(a.namespace, b.namespace)
    } else {
        precedes(a.native_id, b.native_id)
    }
}

/// The order of keys is a strict total order.
pub proof fn key_order(a: KeyView, b: KeyView, c: KeyView)
    ensures
        !key_precedes(a, a),
        key_precedes(a, b) && key_precedes(b, c) ==> key_precedes(a, c),
        key_precedes(a, b) || key_precedes(b, a) || a == b,
        !(key_precedes(a, b) && key_precedes(b, a)),
{
    text::precedes_irreflexive(a.native_id);
    text::precedes_total(a.provider, b.provider);
    text::precedes_total(a.namespace, b.namespace);
    text::precedes_total(a.native_id, b.native_id);
    if precedes(a.provider, b.provider) && precedes(b.provider, c.provider) {
        text::precedes_transitive(a.provider, b.provider, c.provider);
    }
    if precedes(a.namespace, b.namespace) && precedes(b.namespace, c.namespace) {
        text::precedes_transitive(a.namespace, b.namespace, c.namespace);
    }
    if precedes(a.native_id, b.native_id) && precedes(b.native_id, c.native_id) {
        text::precedes_transitive(a.native_id, b.native_id, c.native_id);
    }
    lemma_asymmetric(a.provider, b.provider);
    lemma_asymmetric(a.namespace, b.namespace);
    lemma_asymmetric(a.native_id, b.native_id);
    lemma_asymmetric(a.provider, c.provider);
    lemma_asymmetric(b.provider, c.provider);
    lemma_asymmetric(b.namespace, c.namespace);
}

proof fn lemma_asymmetric(a: Seq<char>, b: Seq<char>)
    ensures
        !(precedes(a, b) && precedes(b, a)),
{
    if precedes(a, b) && precedes(b, a) {
        text::precedes_transitive(a, b, a);
        text::precedes_irreflexive(a);
    }
}

impl LogicalSessionKey {
    /// Whether two keys name the same session.
    pub fn same(&self, other: &LogicalSessionKey) -> (r: bool)
        ensures
            r == (self@ == other@),
    {
        self.provider == other.provider && self.namespace == other.namespace && self.native_id
            == other.native_id
    }

    /// Whether this key comes before another.
    pub fn before(&self, other: &LogicalSessionKey) -> (r: bool)
        ensures
            r == key_precedes(self@, other@),
    {
        if self.provider != other.provider {
            text::before(self.provider.as_str(), other.provider.as_str())
        } else if self.namespace != other.namespace {
            text::before(self.namespace.as_str(), other.namespace.as_str())
        } else {
            text::before(self.native_id.as_str(), other.native_id.as_str())
        }
    }

    /// A copy of the key.
    pub fn copy(&self) -> (r: LogicalSessionKey)
        ensures
            r == *self,
    {
        LogicalSessionKey {
            provider: self.provider.clone(),
            namespace: self.namespace.clone(),
            native_id: self.native_id.clone(),
            qualified: self.qualified.clone(),
        }
    }
}

/// How one session came out of another.
#[derive(Debug, Clone, PartialEq, Eq)]
pub enum LineageEdgeKind {
    /// The later session resumes the earlier one.
    Continuation,
    /// The later session branches off the earlier one.
    Fork,
    /// The later session was started by a tool call of the earlier one.
    Spawn {
        /// The tool call.
        tool_use_id: Option<String>,
        /// The kind of agent that was started.
        agent_type: Option<String>,
        /// What the agent was started for.
        description: Option<String>,
    },
}

/// That one session came out of another.
#[derive(Debug, Clone, PartialEq, Eq)]
pub struct LineageEdge {
    /// The earlier session.
    pub from: LogicalSessionKey,
    /// The later session.
    pub to: LogicalSessionKey,
    /// How it came out.
    pub kind: LineageEdgeKind,
}

/// A session as the inventory of a project describes it.
#[derive(Debug, Clone, PartialEq, Eq)]
pub struct ProjectSession {
    /// The session.
    pub key: LogicalSessionKey,
    /// When it was last modified, in nanoseconds since 1970, where that is known.
    pub modified_at: Option<i128>,
    /// The size of what is stored of it.
    pub artifact_bytes: u64,
}

impl ProjectSession {
    /// A copy of the description.
    pub fn copy(&self) -> (r: ProjectSession)
        ensures
            r == *self,
    {
        ProjectSession {
            key: self.key.copy(),
            modified_at: self.modified_at,
            artifact_bytes: self.artifact_bytes,
        }
    }
}

/// A project with the sessions that all providers have of it.
#[derive(Debug, Clone, PartialEq, Eq)]
pub struct UnifiedProject {
    /// What identifies the project.
    pub identity: String,
    /// The path under which it is shown.
    pub display_path: Option<String>,
    /// Its sessions.
    pub sessions: Vec<ProjectSession>,
}

/// A copy of an optional text.
pub fn copy_text(s: &Option<String>) -> (r: Option<String>)
    ensures
        r == *s,
{
    match s {
        Some(t) => Some(t.clone()),
        None => None,
    }
}

impl UnifiedProject {
    /// The name under which a project is shown: its path, else its identity.
    pub open spec fn shown(&self) -> Seq<char> {
        match self.display_path {
            Some(path) => path@,
            None => self.identity@,
        }
    }

    /// The name under which the project is shown.
    pub fn label(&self) -> (r: String)
        ensures
            r@ == self.shown(),
    {
        match &self.display_path {
            Some(path) => path.clone(),
            None => self.identity.clone(),
        }
    }
}

/// The providers that are asked for.
#[derive(Debug, Clone, PartialEq, Eq)]
pub enum ProviderSelection {
    /// All of them.
    All,
    /// Those with these ids.
    Explicit(Vec<String>),
}

/// A provider is among those that are asked for.
pub open spec fn provider_selected(selection: ProviderSelection, provider: Seq<char>) -> bool {
    match selection {
        ProviderSelection::All => true,
        ProviderSelection::Explicit(ids) => views(ids@).contains(provider),
    }
}

/// The word `all` stands for all providers, and cannot stand beside others.
pub open spec fn all_is_mixed(flags: Seq<Seq<char>>) -> bool {
    flags.len() > 1 && flags.contains("all"@)
}

impl ProviderSelection {
    /// The providers that some words name.
    pub fn from_flags(flags: &Vec<String>) -> (r: Result<ProviderSelection, String>)
        ensures
            if all_is_mixed(views(flags@)) {
                r matches Err(e) && e@ == "'all' cannot be combined with other providers"@
            } else if views(flags@).contains("all"@) {
                r == Ok::<ProviderSelection, String>(ProviderSelection::All)
            } else {
                r matches Ok(ProviderSelection::Explicit(ids)) && views(ids@) == views(flags@)
            },
    {
        if names::holds_name(flags, "all") {
            if flags.len() > 1 {
                Err("'all' cannot be combined with other providers".to_owned())
            } else {
                Ok(ProviderSelection::All)
            }
        } else {
            Ok(ProviderSelection::Explicit(names::copy_names(flags)))
        }
    }

    /// Whether a provider is among those that are asked for.
    pub fn holds(&self, provider: &str) -> (r: bool)
        ensures
            r == provider_selected(*self, provider@),
    {
        match self {
            ProviderSelection::All => true,
            ProviderSelection::Explicit(ids) => names::holds_name(ids, provider),
        }
    }
}

// ---------------------------------------------------------------------------
// Providers that could not be asked
// ---------------------------------------------------------------------------

/// A provider that could not be asked.
#[derive(Debug, Clone, PartialEq, Eq)]
pub struct SkippedProvider {
    /// The provider.
    pub provider: String,
    /// Why.
    pub reason: String,
}

/// A provider that could not be asked, as a JSON object.
pub open spec fn skipped_view(s: SkippedProvider) -> JsonView {
    JsonView::Object(
        seq![
            ("provider"@, JsonView::Text(s.provider@)),
            ("reason"@, JsonView::Text(s.reason@)),
        ],
    )
}

/// A provider that could not be asked, as a JSON object.
pub fn skipped_json(s: &SkippedProvider) -> (r: Json)
    ensures
        r@ == skipped_view(*s),
{
    let mut fields: Vec<(String, Json)> = Vec::new();
    json::put(&mut fields, "provider", json::of_text(s.provider.as_str()));
    json::put(&mut fields, "reason", json::of_text(s.reason.as_str()));
    proof {
        assert(fields_view(fields@) =~= seq![
            ("provider"@, JsonView::Text(s.provider@)),
            ("reason"@, JsonView::Text(s.reason@)),
        ]);
    }
    Json::Object(fields)
}

/// Providers that could not be asked, as a JSON list.
pub open spec fn skips_view(skipped: Seq<SkippedProvider>) -> JsonView {
    JsonView::Array(skipped.map_values(|s: SkippedProvider| skipped_view(s)))
}

/// Providers that could not be asked, as a JSON list.
pub fn skips_json(skipped: &Vec<SkippedProvider>) -> (r: Json)
    ensures
        r@ == skips_view(skipped@),
{
    let ghost g = |s: SkippedProvider| skipped_view(s);
    json::of_list(skipped, skipped_json, Ghost(g))
}

// ---------------------------------------------------------------------------
// Warnings beside a report
// ---------------------------------------------------------------------------

/// The lines of some warnings, and of the providers that could not be asked.
pub open spec fn warning_lines(warnings: Seq<String>, skipped: Seq<SkippedProvider>) -> Seq<
    Seq<char>,
> {
    warnings.map_values(|w: String| "warning: "@ + w@) + skipped.map_values(
        |s: SkippedProvider| "warning: provider '"@ + s.provider@ + "' unavailable"@,
    )
}

/// The lines of some warnings, and of the providers that could not be asked.
pub fn write_warnings(warnings: &Vec<String>, skipped: &Vec<SkippedProvider>) -> (r: Vec<String>)
    ensures
        views(r@) == warning_lines(warnings@, skipped@),
{
    let mut out: Vec<String> = Vec::new();
    let warn = |w: &String| -> (o: String)
        ensures
            o@ == "warning: "@ + w@,
        { text::cat2("warning: ", w.as_str()) };
    let ghost g = |w: String| "warning: "@ + w@;
    text::say_each(&mut out, warnings, warn, Ghost(g));
    proof {
        assert(views(out@) =~= warnings@.map_values(g));
    }
    let unavailable = |s: &SkippedProvider| -> (o: String)
        ensures
            o@ == "warning: provider '"@ + s.provider@ + "' unavailable"@,
        { text::cat3("warning: provider '", s.provider.as_str(), "' unavailable") };
    let ghost g2 = |s: SkippedProvider| "warning: provider '"@ + s.provider@ + "' unavailable"@;
    text::say_each(&mut out, skipped, unavailable, Ghost(g2));
    out
}

// ---------------------------------------------------------------------------
// What keys and selections mean
// ---------------------------------------------------------------------------

/// Keys are ordered by their providers; those of one provider by their namespaces; and those of one
/// namespace by their ids.
pub proof fn providers_order_keys_first(a: KeyView, b: KeyView)
    ensures
        precedes(a.provider, b.provider) ==> key_precedes(a, b),
        a.provider == b.provider && precedes(a.namespace, b.namespace) ==> key_precedes(a, b),
        a.provider == b.provider && a.namespace == b.namespace && precedes(a.native_id, b.native_id)
            ==> key_precedes(a, b),
{
    text::precedes_irreflexive(a.provider);
    text::precedes_irreflexive(a.namespace);
}

/// A provider is asked for where all are, or where it is one of those that are named.
pub proof fn named_providers_are_selected(selection: ProviderSelection, provider: Seq<char>)
    ensures
        selection is All ==> provider_selected(selection, provider),
        selection matches ProviderSelection::Explicit(ids) ==> (provider_selected(
            selection,
            provider,
        ) <==> exists|i: int| 0 <= i < ids@.len() && (#[trigger] ids@[i])@ == provider),
{
    match selection {
        ProviderSelection::All => {},
        ProviderSelection::Explicit(ids) => {
            let words = views(ids@);
            if words.contains(provider) {
                let i = choose|i: int| 0 <= i < words.len() && words[i] == provider;
                assert(ids@[i]@ == provider);
            }
            if exists|i: int| 0 <= i < ids@.len() && (#[trigger] ids@[i])@ == provider {
                let i = choose|i: int| 0 <= i < ids@.len() && (#[trigger] ids@[i])@ == provider;
                assert(words[i] == provider);
            }
        },
    }
}

} // verus!
