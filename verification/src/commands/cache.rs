//! The cache: what is asked for, and what is said.
use vstd::prelude::*;

use crate::text;
use crate::text::{decimal, views};

verus! {

/// What can be asked for.
#[derive(Debug, Clone, Copy, PartialEq, Eq)]
pub enum CacheAction {
    /// The numbers.
    Stats,
    /// Empty it.
    Clear,
    /// Take out what is no longer right.
    Invalidate,
    /// Whether it is used.
    Status {
        /// Use it.
        enable: bool,
        /// Do not use it.
        disable: bool,
    },
}

/// What is done.
#[derive(Debug, Clone, PartialEq, Eq)]
pub enum CachePlan {
    /// Show the numbers.
    ShowStats,
    /// Empty it.
    Clear,
    /// Take out what is no longer right.
    Invalidate,
    /// Tell how to change whether it is used.
    Hint(String),
    /// Show whether it is used.
    ShowStatus,
}

/// What is done.
pub fn run(action: CacheAction) -> (r: CachePlan)
    ensures
        match action {
            CacheAction::Stats => r is ShowStats,
            CacheAction::Clear => r is Clear,
            CacheAction::Invalidate => r is Invalidate,
            CacheAction::Status { enable, disable } => if enable {
                r matches CachePlan::Hint(s) && s@
                    == "Caching is enabled by default. To persist, edit config with: snatch config set cache.enabled true"@
            } else if disable {
                r matches CachePlan::Hint(s) && s@
                    == "To disable caching, edit config with: snatch config set cache.enabled false"@
            } else {
                r is ShowStatus
            },
        },
{
    match action {
        CacheAction::Stats => CachePlan::ShowStats,
        CacheAction::Clear => CachePlan::Clear,
        CacheAction::Invalidate => CachePlan::Invalidate,
        CacheAction::Status { enable, disable } => if enable {
            CachePlan::Hint(
                "Caching is enabled by default. To persist, edit config with: snatch config set cache.enabled true".to_owned(),
            )
        } else if disable {
            CachePlan::Hint(
                "To disable caching, edit config with: snatch config set cache.enabled false".to_owned(),
            )
        } else {
            CachePlan::ShowStatus
        },
    }
}

/// The numbers of a part of the cache.
#[derive(Debug, Clone, PartialEq, Eq)]
pub struct PartStats {
    /// The number of entries.
    pub entry_count: usize,
    /// The most entries.
    pub max_entries: usize,
    /// The size, as shown.
    pub size: String,
    /// The largest size, as shown.
    pub max_size: String,
    /// How much of it is used, in percent, as shown.
    pub usage_percent: String,
}

/// The numbers of the cache.
#[derive(Debug, Clone, PartialEq, Eq)]
pub struct CacheStats {
    /// Whether it is used.
    pub enabled: bool,
    /// What is known of sessions.
    pub metadata: PartStats,
    /// What sessions hold.
    pub entries: PartStats,
    /// The number of all entries.
    pub total_entries: usize,
    /// The size of all of it, as shown.
    pub total_size: String,
}

/// The lines of a part of the cache.
pub open spec fn part_lines(title: Seq<char>, p: PartStats) -> Seq<Seq<char>> {
    seq![
        title,
        "  Entries: "@ + decimal(p.entry_count as nat) + " / "@ + decimal(p.max_entries as nat),
        "  Size: "@ + p.size@ + " / "@ + p.max_size@ + " ("@ + p.usage_percent@ + "%)"@,
        ""@,
    ]
}

fn write_part(title: &str, p: &PartStats) -> (r: Vec<String>)
    ensures
        views(r@) == part_lines(title@, *p),
{
    let mut out: Vec<String> = Vec::new();
    let count = text::size(p.entry_count);
    let most = text::size(p.max_entries);
    text::say(&mut out, title);
    text::say4(&mut out, "  Entries: ", count.as_str(), " / ", most.as_str());
    let a = text::cat5("  Size: ", p.size.as_str(), " / ", p.max_size.as_str(), " (");
    text::say3(&mut out, a.as_str(), p.usage_percent.as_str(), "%)");
    text::say(&mut out, "");
    proof {
        assert(views(out@) =~= part_lines(title@, *p));
    }
    out
}

/// The numbers of the cache, for a reader.
pub open spec fn stats_lines(s: CacheStats) -> Seq<Seq<char>> {
    seq![
        "Cache Status"@,
        "============"@,
        "Enabled: "@ + (if s.enabled {
            "yes"@
        } else {
            "no"@
        }),
        ""@,
    ] + part_lines("Metadata Cache:"@, s.metadata) + part_lines("Entries Cache:"@, s.entries)
        + seq![
        "Total:"@,
        "  Entries: "@ + decimal(s.total_entries as nat),
        "  Size: "@ + s.total_size@,
    ]
}

/// The numbers of the cache, for a reader.
pub fn show_stats(s: &CacheStats) -> (r: Vec<String>)
    ensures
        views(r@) == stats_lines(*s),
{
    let mut out: Vec<String> = Vec::new();
    let used: &str = if s.enabled {
        "yes"
    } else {
        "no"
    };
    text::say(&mut out, "Cache Status");
    text::say(&mut out, "============");
    text::say2(&mut out, "Enabled: ", used);
    text::say(&mut out, "");
    let metadata = write_part("Metadata Cache:", &s.metadata);
    text::say_more(&mut out, metadata);
    let entries = write_part("Entries Cache:", &s.entries);
    text::say_more(&mut out, entries);
    let total = text::size(s.total_entries);
    text::say(&mut out, "Total:");
    text::say2(&mut out, "  Entries: ", total.as_str());
    text::say2(&mut out, "  Size: ", s.total_size.as_str());
    proof {
        assert(views(out@) =~= stats_lines(*s));
    }
    out
}

/// What is said after the cache was emptied; the numbers are those from before.
pub fn clear_cache(before: &CacheStats) -> (r: String)
    ensures
        r@ == "Cleared "@ + decimal(before.total_entries as nat) + " entries ("@
            + before.total_size@ + ")"@,
{
    let count = text::size(before.total_entries);
    text::cat5("Cleared ", count.as_str(), " entries (", before.total_size.as_str(), ")")
}

/// What is said after what is no longer right was taken out.
pub fn invalidate_stale(entries_before: usize, entries_after: usize) -> (r: String)
    requires
        entries_after <= entries_before,
    ensures
        r@ == (if entries_before > entries_after {
            "Invalidated "@ + decimal((entries_before - entries_after) as nat) + " stale entries"@
        } else {
            "No stale entries found"@
        }),
{
    let removed: usize = entries_before - entries_after;
    if removed > 0 {
        let count = text::size(removed);
        text::cat3("Invalidated ", count.as_str(), " stale entries")
    } else {
        "No stale entries found".to_owned()
    }
}

/// Whether the cache is used, for a reader.
pub fn show_status(s: &CacheStats) -> (r: Vec<String>)
    ensures
        views(r@) == (if s.enabled {
            seq![
                "Cache: enabled"@,
                "Usage: "@ + decimal(s.total_entries as nat) + " entries, "@ + s.total_size@,
            ]
        } else {
            seq!["Cache: disabled"@]
        }),
{
    let mut out: Vec<String> = Vec::new();
    if s.enabled {
        let count = text::size(s.total_entries);
        text::say(&mut out, "Cache: enabled");
        text::say4(&mut out, "Usage: ", count.as_str(), " entries, ", s.total_size.as_str());
    } else {
        text::say(&mut out, "Cache: disabled");
    }
    proof {
        assert(views(out@) =~= (if s.enabled {
            seq![
                "Cache: enabled"@,
                "Usage: "@ + decimal(s.total_entries as nat) + " entries, "@ + s.total_size@,
            ]
        } else {
            seq!["Cache: disabled"@]
        }));
    }
    out
}

// ---------------------------------------------------------------------------
// What calls hand back
// ---------------------------------------------------------------------------

/// Numbers, emptying and tidying are done as asked; of the status, a wish for the cache goes before
/// one against it, and without a wish the status is shown.
pub proof fn wishes_are_answered(enable: bool, disable: bool, r: CachePlan, action: CacheAction, done: CachePlan)
    ensures
        call_ensures(run, (CacheAction::Status { enable, disable },), r) ==> {
            &&& r is Hint <==> enable || disable
            &&& r is ShowStatus <==> !enable && !disable
        },
        call_ensures(run, (action,), done) ==> {
            &&& done is ShowStats <==> action is Stats
            &&& done is Clear <==> action is Clear
            &&& done is Invalidate <==> action is Invalidate
        },
{
}

} // verus!
