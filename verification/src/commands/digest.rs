//! A session in short.
use vstd::prelude::*;

use crate::json;
use crate::json::{fields_view, optional_text, Json, JsonView};
use crate::text;
use crate::text::views;

verus! {

/// Whether a session is asked for by its provider.
pub fn uses_provider(provider: &Vec<String>, looks_qualified: bool) -> (r: bool)
    ensures
        r == (provider@.len() > 0 || looks_qualified),
{
    provider.len() > 0 || looks_qualified
}

/// The project of a session: the first directory that its entries name.
pub open spec fn first_directory(directories: Seq<Option<String>>) -> Seq<char>
    decreases directories.len(),
{
    if directories.len() == 0 {
        "unknown"@
    } else {
        match directories[0] {
            Some(d) => d@,
            None => first_directory(directories.drop_first()),
        }
    }
}

proof fn lemma_first_directory(directories: Seq<Option<String>>, k: int)
    requires
        0 <= k <= directories.len(),
        forall|i: int| 0 <= i < k ==> (#[trigger] directories[i]) is None,
    ensures
        first_directory(directories) == (if k < directories.len() && directories[k] is Some {
            directories[k]->0@
        } else {
            first_directory(directories.skip(k))
        }),
    decreases k,
{
    if k > 0 {
        assert(directories[0] is None);
        let rest = directories.drop_first();
        assert forall|i: int| 0 <= i < k - 1 implies (#[trigger] rest[i]) is None by {
            assert(rest[i] == directories[i + 1]);
        }
        lemma_first_directory(rest, k - 1);
        assert(rest.skip(k - 1) =~= directories.skip(k));
        if k < directories.len() {
            assert(rest[k - 1] == directories[k]);
        }
    } else {
        assert(directories.skip(0) =~= directories);
    }
}

/// The project of a session: the first directory that its entries name.
pub fn project_of(directories: &Vec<Option<String>>) -> (r: String)
    ensures
        r@ == first_directory(directories@),
{
    let mut i: usize = 0;
    while i < directories.len()
        invariant
            i <= directories@.len(),
            forall|k: int| 0 <= k < i ==> (#[trigger] directories@[k]) is None,
        decreases directories@.len() - i,
    {
        match &directories[i] {
            Some(d) => {
                proof {
                    lemma_first_directory(directories@, i as int);
                }
                return d.clone();
            },
            None => {},
        }
        i = i + 1;
    }
    proof {
        lemma_first_directory(directories@, i as int);
        assert(directories@.skip(i as int) =~= Seq::empty());
    }
    "unknown".to_owned()
}

/// Which session it is.
#[derive(Debug, Clone, PartialEq, Eq)]
pub struct DigestSource {
    /// The id under which it is shown.
    pub display_id: String,
    /// Its provider.
    pub provider: Option<String>,
    /// Its id with the provider.
    pub qualified_id: Option<String>,
    /// Its project.
    pub project_path: String,
}

/// What a session holds, in short, as JSON values.
#[derive(Debug)]
pub struct DigestValues {
    /// The prompts that count.
    pub key_prompts: Json,
    /// The last prompts.
    pub recent_prompts: Json,
    /// The number of prompts.
    pub total_prompts: Json,
    /// The files.
    pub files_touched: Json,
    /// The tools that were called most.
    pub top_tools: Json,
    /// The number of failures.
    pub error_count: Json,
    /// The number of failures that are certain.
    pub confirmed_tool_failures: Json,
    /// The number of signs of failures.
    pub inferred_failure_signals: Json,
    /// How often the session was shortened.
    pub compaction_count: Json,
    /// The words of the thoughts that count.
    pub thinking_keywords: Json,
}

/// The fields of a session in short.
pub open spec fn digest_fields(s: DigestSource, v: DigestValues) -> Seq<(Seq<char>, JsonView)> {
    seq![
        ("session_id"@, JsonView::Text(s.display_id@)),
        ("provider"@, optional_text(s.provider)),
        ("qualified_id"@, optional_text(s.qualified_id)),
        ("project_path"@, JsonView::Text(s.project_path@)),
        ("key_prompts"@, v.key_prompts@),
        ("recent_prompts"@, v.recent_prompts@),
        ("total_prompts"@, v.total_prompts@),
        ("files_touched"@, v.files_touched@),
        ("top_tools"@, v.top_tools@),
        ("error_count"@, v.error_count@),
        ("confirmed_tool_failures"@, v.confirmed_tool_failures@),
        ("inferred_failure_signals"@, v.inferred_failure_signals@),
        ("compaction_count"@, v.compaction_count@),
        ("thinking_keywords"@, v.thinking_keywords@),
    ]
}

/// A session in short, as a JSON object.
pub fn digest_json(s: &DigestSource, v: DigestValues) -> (r: Json)
    ensures
        r@ == JsonView::Object(digest_fields(*s, v)),
{
    let mut fields: Vec<(String, Json)> = Vec::new();
    json::put(&mut fields, "session_id", json::of_text(s.display_id.as_str()));
    json::put(&mut fields, "provider", json::of_option(&s.provider));
    json::put(&mut fields, "qualified_id", json::of_option(&s.qualified_id));
    json::put(&mut fields, "project_path", json::of_text(s.project_path.as_str()));
    json::put(&mut fields, "key_prompts", v.key_prompts);
    json::put(&mut fields, "recent_prompts", v.recent_prompts);
    json::put(&mut fields, "total_prompts", v.total_prompts);
    json::put(&mut fields, "files_touched", v.files_touched);
    json::put(&mut fields, "top_tools", v.top_tools);
    json::put(&mut fields, "error_count", v.error_count);
    json::put(&mut fields, "confirmed_tool_failures", v.confirmed_tool_failures);
    json::put(&mut fields, "inferred_failure_signals", v.inferred_failure_signals);
    json::put(&mut fields, "compaction_count", v.compaction_count);
    json::put(&mut fields, "thinking_keywords", v.thinking_keywords);
    proof {
        assert(fields_view(fields@) =~= digest_fields(*s, v));
    }
    Json::Object(fields)
}

/// A session in short, for a reader. `formatted` is what it holds.
pub fn print_digest(display_id: &str, formatted: &str) -> (r: Vec<String>)
    ensures
        views(r@) == seq!["Session Digest: "@ + display_id@ + "\n"@, formatted@],
{
    let mut out: Vec<String> = Vec::new();
    text::say3(&mut out, "Session Digest: ", display_id, "\n");
    text::say(&mut out, formatted);
    proof {
        assert(views(out@) =~= seq!["Session Digest: "@ + display_id@ + "\n"@, formatted@]);
    }
    out
}

// ---------------------------------------------------------------------------
// The directory
// ---------------------------------------------------------------------------

/// The directory is the first that is known; without one it is unknown.
pub proof fn first_known_directory_is_taken(directories: Seq<Option<String>>, k: int)
    requires
        0 <= k <= directories.len(),
        forall|j: int| 0 <= j < k ==> (#[trigger] directories[j]) is None,
    ensures
        k < directories.len() && directories[k] is Some ==> first_directory(directories)
            == directories[k]->0@,
        k == directories.len() ==> first_directory(directories) == "unknown"@,
{
    if k == directories.len() || directories[k] is Some {
        lemma_first_directory(directories, k);
    }
}

} // verus!
