//! A guide for new users: one page for each topic.
use vstd::prelude::*;

use crate::commands::OutputFormat;
use crate::host::Host;
use crate::json;
use crate::json::{fields_view, texts_json, Json, JsonView};
use crate::text;
use crate::text::{repeated, views};

verus! {

/// A topic of the guide.
#[derive(Debug, Clone, Copy, PartialEq, Eq, Structural)]
pub enum QuickstartTopic {
    /// The first steps.
    Overview,
    /// Finding sessions.
    Explore,
    /// Writing sessions out.
    Export,
    /// Searching sessions.
    Search,
    /// Numbers.
    Stats,
    /// The browser.
    Tui,
    /// Recipes.
    Workflows,
    /// All of it.
    All,
}

/// What is asked for.
#[derive(Debug, Clone, Copy, PartialEq, Eq)]
pub struct QuickstartArgs {
    /// The topic.
    pub topic: QuickstartTopic,
    /// With everything that is added to a page.
    pub verbose: bool,
}

/// The page `overview`, from its heading to the first name of the host.
pub const OVERVIEW_START: &'static str = ": Getting Started in 5 Minutes
============================================

Snatch extracts and analyzes your ";

/// The page `overview`, between the names of the host.
pub const OVERVIEW_STEPS: &'static str = " conversations with maximum
data fidelity. Here's how to get started:

STEP 1: List Your Sessions
--------------------------
  snatch list

  This shows your most recent ";

/// The page `overview`, after the names of the host.
pub const OVERVIEW_END: &'static str = " sessions. You'll see:
  - Session ID (short 8-char prefix you can use in other commands)
  - Project path
  - Last modified time
  - Message count

STEP 2: Export a Conversation
-----------------------------
  snatch export <session-id>

  Replace <session-id> with one from the list (e.g., \"abc12345\").
  By default, exports to Markdown on stdout.

  Common variations:
    snatch export abc12345 -O conversation.md    # Save to file
    snatch export abc12345 -f json               # Export as JSON
    snatch export abc12345 -f html --toc         # HTML with sidebar

STEP 3: View Statistics
-----------------------
  snatch stats --global

  See your total token usage and estimated costs across all sessions.

QUICK REFERENCE
---------------
  snatch list              List sessions
  snatch export <id>       Export a conversation
  snatch search \"query\"    Search across sessions
  snatch stats             Usage statistics
  snatch tui               Interactive browser
  snatch info <id>         Session details
  snatch quickstart <topic> More help on specific topics

AVAILABLE TOPICS
----------------
  snatch quickstart explore     Finding sessions and projects
  snatch quickstart export      All export formats and options
  snatch quickstart search      Search and filtering
  snatch quickstart stats       Understanding usage data
  snatch quickstart tui         Interactive TUI guide
  snatch quickstart workflows   Common recipes and integrations
  snatch quickstart all         Show everything";

/// What is added to the page `overview`.
pub const OVERVIEW_MORE: &'static str = "

ADDITIONAL TIPS
---------------
- Use short IDs: \"abc12345\" instead of full UUIDs
- Most commands support -o json for machine-readable output
- Add --help to any command for full documentation
- Use snatch pick for fuzzy session selection";

/// The page `explore`.
pub const EXPLORE: &'static str = "
EXPLORING SESSIONS AND PROJECTS
===============================

LIST SESSIONS
-------------
  snatch list                     # Recent sessions (default: 50)
  snatch list -n 100              # Show more results
  snatch list -n 0                # Show all (no limit)
  snatch list --active            # Only active sessions
  snatch list --since 1week       # Modified in last week

LIST PROJECTS
-------------
  snatch list projects            # Show all projects

FILTER BY PROJECT
-----------------
  snatch list -p /path/to/project # Filter by project path
  snatch list -p myproject        # Substring match works too

SESSION DETAILS
---------------
  snatch info <session-id>        # Full session information
  snatch info <session-id> --tree # Show conversation structure
  snatch info <session-id> --raw  # Raw JSONL entries";

/// What is added to the page `explore`.
pub const EXPLORE_MORE: &'static str = "

SORT OPTIONS
------------
  snatch list -s modified         # By modification time (default)
  snatch list -s oldest           # Oldest first
  snatch list -s size             # By file size
  snatch list -s name             # Alphabetically

OUTPUT FORMATS
--------------
  snatch list -o json             # JSON output
  snatch list -o tsv              # Tab-separated (for scripts)
  snatch list -o compact          # Single-line per entry";

/// The page `export`.
pub const EXPORT: &'static str = "
EXPORTING CONVERSATIONS
=======================

BASIC EXPORT
------------
  snatch export <session-id>              # Markdown to stdout
  snatch export <session-id> -O out.md    # Save to file

FORMATS
-------
  snatch export <id> -f markdown   # Markdown (default)
  snatch export <id> -f json       # Structured JSON
  snatch export <id> -f html       # Standalone HTML page
  snatch export <id> -f text       # Plain text
  snatch export <id> -f csv        # Tabular CSV
  snatch export <id> -f xml        # XML markup
  snatch export <id> -f sqlite     # SQLite database
  snatch export <id> -f jsonl      # Original JSONL format

CONTENT OPTIONS
---------------
  snatch export <id> --no-thinking       # Exclude thinking blocks
  snatch export <id> --no-tool-use       # Exclude tool invocations
  snatch export <id> --no-tool-results   # Exclude tool outputs
  snatch export <id> --only user         # Only user messages
  snatch export <id> --only prompts      # Only human-typed prompts

BULK EXPORT
-----------
  snatch export --all                    # Export all sessions
  snatch export --all -p /my/project     # All from specific project
  snatch export --all --since 1week      # Recent sessions only";

/// What is added to the page `export`.
pub const EXPORT_MORE: &'static str = "

SPECIAL OPTIONS
---------------
  snatch export <id> --lossless          # Preserve ALL data
  snatch export <id> --combine-agents    # Include subagent sessions
  snatch export <id> --main-thread       # Only main conversation thread
  snatch export <id> --pretty            # Pretty-print JSON
  snatch export <id> --metadata          # Include UUIDs, etc.

HTML OPTIONS
------------
  snatch export <id> -f html --toc       # Table of contents sidebar
  snatch export <id> -f html --dark      # Dark theme

SECURITY
--------
  snatch export <id> --redact security   # Redact API keys, passwords
  snatch export <id> --redact all        # Also redact emails, IPs
  snatch export <id> --warn-pii          # Warn about PII (no redaction)
  snatch export <id> --redact security --redact-preview
                                         # Preview what would be redacted

SHARING
-------
  snatch export <id> --gist              # Upload to GitHub Gist
  snatch export <id> --clipboard         # Copy to clipboard";

/// The page `search`.
pub const SEARCH: &'static str = "
SEARCHING SESSIONS
==================

BASIC SEARCH
------------
  snatch search \"pattern\"             # Search in all sessions
  snatch search \"error\" -i            # Case-insensitive
  snatch search \"function.*async\"     # Regex supported

FILTER SEARCH
-------------
  snatch search \"bug\" -p /my/project  # Specific project
  snatch search \"fix\" -s abc12345     # Specific session
  snatch search \"api\" -t user         # Only user messages
  snatch search \"model\" -m opus       # By model used

SEARCH OPTIONS
--------------
  snatch search \"term\" -C 5           # Show 5 context lines
  snatch search \"term\" -n 10          # Limit to 10 results
  snatch search \"term\" -l             # Show session IDs only
  snatch search \"term\" -c             # Count matches only

FUZZY SEARCH
------------
  snatch search \"implmentation\" -f    # Fuzzy matching (typo-tolerant)
  snatch search \"auth\" -f --fuzzy-threshold 70  # Adjust sensitivity";

/// What is added to the page `search`.
pub const SEARCH_MORE: &'static str = "

INDEXED SEARCH (Faster)
-----------------------
  snatch index build                  # Build search index first
  snatch index search \"query\"         # Fast full-text search
  snatch index status                 # Check index status

ADVANCED FILTERS
----------------
  snatch search \"term\" --thinking     # Also search thinking blocks
  snatch search \"term\" --tools        # Also search tool outputs
  snatch search \"term\" -a             # Search everywhere
  snatch search \"term\" --errors       # Only messages with errors
  snatch search \"term\" --tool-name Bash  # Filter by tool name";

/// The page `stats`.
pub const STATS: &'static str = "
USAGE STATISTICS
================

BASIC STATS
-----------
  snatch stats                        # Stats for recent sessions
  snatch stats --global               # Global totals
  snatch stats -s <session-id>        # Specific session
  snatch stats -p /my/project         # Specific project

DETAILED VIEWS
--------------
  snatch stats --tools                # Tool usage breakdown
  snatch stats --models               # Model usage breakdown
  snatch stats --costs                # Cost estimates
  snatch stats -a                     # All of the above

BILLING BLOCKS
--------------
  snatch stats --blocks               # 5-hour billing windows
  snatch stats --blocks --token-limit 500000  # With usage gauge";

/// What is added to the page `stats`.
pub const STATS_MORE: &'static str = "

VISUALIZATIONS
--------------
  snatch stats --sparkline            # Usage trend sparklines
  snatch stats --timeline             # Activity timeline
  snatch stats --graph                # Token usage graph

COST TRACKING
-------------
  snatch stats --record               # Record current stats to history
  snatch stats --history              # View historical costs
  snatch stats --history --days 7     # Last 7 days
  snatch stats --weekly               # Weekly aggregation
  snatch stats --monthly              # Monthly aggregation

EXPORT
------
  snatch stats --csv                  # Export as CSV
  snatch stats -o json                # JSON output";

/// The page `tui`.
pub const TUI: &'static str = "
INTERACTIVE TUI BROWSER
=======================

LAUNCH
------
  snatch tui                          # Open TUI browser
  snatch tui -p /my/project           # Start with project
  snatch tui -s abc12345              # Open specific session

NAVIGATION
----------
  j/k or Up/Down    Move through list
  h/l or Left/Right Switch panels
  Enter             Select/expand item
  Esc               Go back
  1/2/3             Focus specific panel

SEARCH
------
  /                 Start search
  n/N               Next/previous result
  Enter             Confirm search
  Esc               Cancel search

ACTIONS
-------
  e                 Export current session
  c                 Copy message to clipboard
  C                 Copy code block
  r                 Refresh

DISPLAY
-------
  t                 Toggle thinking blocks
  o                 Toggle tool outputs
  w                 Toggle word wrap
  #                 Toggle line numbers
  T                 Cycle theme
  ?                 Toggle help panel

FILTERS
-------
  f                 Toggle filter panel
  F/B               Cycle message type filter
  E                 Toggle errors-only
  M                 Filter by model
  [/]               Set date range
  X                 Clear all filters";

/// What is added to the page `tui`.
pub const TUI_MORE: &'static str = "

THEMES
------
  snatch tui --theme dark             # Dark theme (default)
  snatch tui --theme light            # Light theme
  snatch tui --ascii                  # ASCII-only (no Unicode)

EXPORT DIALOG
-------------
  When pressing 'e' to export:
    h/l             Change format
    t               Toggle thinking
    o               Toggle tools
    Enter           Confirm export
    Esc             Cancel";

/// The page `workflows`.
pub const WORKFLOWS: &'static str = "
COMMON WORKFLOWS
================

EXTRACT ALL PROMPTS
-------------------
  snatch prompts --all > all-prompts.txt
  snatch prompts -p /my/project --timestamps

DAILY STANDUP REPORT
--------------------
  snatch standup                      # Last 24 hours activity
  snatch standup --period 1week -a    # Weekly with all details
  snatch standup -f markdown --clipboard  # Copy to clipboard

ARCHIVE SESSIONS
----------------
  snatch export --all -f sqlite -O archive.db    # SQLite archive
  snatch export --all -f json -O archive.json    # JSON archive
  snatch export --all --since 1month -p /proj    # Recent from project

SESSION MANAGEMENT
------------------
  snatch tag add <id> \"important\"     # Add tag
  snatch tag name <id> \"Auth Refactor\"  # Name a session
  snatch tag bookmark <id>            # Bookmark for quick access
  snatch tag outcome <id> success     # Mark outcome

FUZZY SESSION PICKER
--------------------
  snatch pick                         # Interactive fuzzy picker
  snatch pick -a info                 # Pick then show info
  snatch pick -a stats                # Pick then show stats";

/// What is added to the page `workflows`.
pub const WORKFLOWS_MORE: &'static str = "

SHELL INTEGRATION
-----------------
  # Add to .bashrc or .zshrc:
  alias sl='snatch list'
  alias se='snatch export'
  alias ss='snatch search'
  alias st='snatch tui'

  # Quick export function:
  snexport() { snatch export \"$1\" -O \"${2:-conversation.md}\"; }

CLEANUP
-------
  snatch cleanup --empty --preview    # Preview empty sessions
  snatch cleanup --older-than 3months # Old sessions
  snatch cache stats                  # Check cache usage
  snatch cache invalidate             # Clear stale cache

VALIDATION
----------
  snatch validate --all               # Check all sessions
  snatch validate <id> --schema       # Schema compatibility";

/// The page of a topic.
pub open spec fn page(topic: QuickstartTopic, host: Host) -> Seq<char> {
    match topic {
        QuickstartTopic::Overview => "\n"@ + host.title@ + OVERVIEW_START@ + host.name@
            + OVERVIEW_STEPS@ + host.name@ + OVERVIEW_END@,
        QuickstartTopic::Explore => EXPLORE@,
        QuickstartTopic::Export => EXPORT@,
        QuickstartTopic::Search => SEARCH@,
        QuickstartTopic::Stats => STATS@,
        QuickstartTopic::Tui => TUI@,
        QuickstartTopic::Workflows => WORKFLOWS@,
        QuickstartTopic::All => ""@,
    }
}

/// What is added to the page of a topic.
pub open spec fn addition(topic: QuickstartTopic) -> Seq<char> {
    match topic {
        QuickstartTopic::Overview => OVERVIEW_MORE@,
        QuickstartTopic::Explore => EXPLORE_MORE@,
        QuickstartTopic::Export => EXPORT_MORE@,
        QuickstartTopic::Search => SEARCH_MORE@,
        QuickstartTopic::Stats => STATS_MORE@,
        QuickstartTopic::Tui => TUI_MORE@,
        QuickstartTopic::Workflows => WORKFLOWS_MORE@,
        QuickstartTopic::All => ""@,
    }
}

/// What is printed of one topic.
pub open spec fn topic_pages(topic: QuickstartTopic, verbose: bool, host: Host) -> Seq<Seq<char>> {
    if verbose {
        seq![page(topic, host), addition(topic)]
    } else {
        seq![page(topic, host)]
    }
}

/// The rule between two topics.
pub open spec fn rule() -> Seq<Seq<char>> {
    seq!["\n"@ + repeated('=', 60) + "\n"@]
}

/// What is printed for a request.
pub open spec fn text_pages(args: QuickstartArgs, host: Host) -> Seq<Seq<char>> {
    if args.topic == QuickstartTopic::All {
        topic_pages(QuickstartTopic::Overview, args.verbose, host) + rule() + topic_pages(QuickstartTopic::Explore, args.verbose, host) + rule() + topic_pages(QuickstartTopic::Export, args.verbose, host) + rule() + topic_pages(QuickstartTopic::Search, args.verbose, host) + rule() + topic_pages(QuickstartTopic::Stats, args.verbose, host) + rule() + topic_pages(QuickstartTopic::Tui, args.verbose, host) + rule() + topic_pages(QuickstartTopic::Workflows, args.verbose, host)
    } else {
        topic_pages(args.topic, args.verbose, host)
    }
}

fn page_of(topic: QuickstartTopic, host: &Host) -> (r: String)
    ensures
        r@ == page(topic, *host),
{
    match topic {
        QuickstartTopic::Overview => {
            let head = text::cat5(
                "\n",
                host.title.as_str(),
                OVERVIEW_START,
                host.name.as_str(),
                OVERVIEW_STEPS,
            );
            text::cat3(head.as_str(), host.name.as_str(), OVERVIEW_END)
        },
        QuickstartTopic::Explore => EXPLORE.to_owned(),
        QuickstartTopic::Export => EXPORT.to_owned(),
        QuickstartTopic::Search => SEARCH.to_owned(),
        QuickstartTopic::Stats => STATS.to_owned(),
        QuickstartTopic::Tui => TUI.to_owned(),
        QuickstartTopic::Workflows => WORKFLOWS.to_owned(),
        QuickstartTopic::All => "".to_owned(),
    }
}

fn addition_of(topic: QuickstartTopic) -> (r: &'static str)
    ensures
        r@ == addition(topic),
{
    match topic {
        QuickstartTopic::Overview => OVERVIEW_MORE,
        QuickstartTopic::Explore => EXPLORE_MORE,
        QuickstartTopic::Export => EXPORT_MORE,
        QuickstartTopic::Search => SEARCH_MORE,
        QuickstartTopic::Stats => STATS_MORE,
        QuickstartTopic::Tui => TUI_MORE,
        QuickstartTopic::Workflows => WORKFLOWS_MORE,
        QuickstartTopic::All => "",
    }
}

fn say_topic(out: &mut Vec<String>, topic: QuickstartTopic, verbose: bool, host: &Host)
    ensures
        views(final(out)@) == views(old(out)@) + topic_pages(topic, verbose, *host),
{
    let ghost start = views(out@);
    let words = page_of(topic, host);
    text::say(out, words.as_str());
    if verbose {
        text::say(out, addition_of(topic));
    }
    proof {
        assert(views(out@) =~= start + topic_pages(topic, verbose, *host));
    }
}

fn say_rule(out: &mut Vec<String>)
    ensures
        views(final(out)@) == views(old(out)@) + rule(),
{
    let ghost start = views(out@);
    let line = text::repeat('=', 60);
    text::say3(out, "\n", line.as_str(), "\n");
    proof {
        assert(views(out@) =~= start + rule());
    }
}

/// What is printed for a request, page by page.
pub fn show_text(args: &QuickstartArgs, host: &Host) -> (r: Vec<String>)
    ensures
        views(r@) == text_pages(*args, *host),
{
    let mut out: Vec<String> = Vec::new();
    proof {
        assert(views(out@) =~= Seq::empty());
    }
    if args.topic == QuickstartTopic::All {
        say_topic(&mut out, QuickstartTopic::Overview, args.verbose, host);
        proof {
            assert(views(out@) =~= topic_pages(QuickstartTopic::Overview, args.verbose, *host));
        }
        say_rule(&mut out);
        say_topic(&mut out, QuickstartTopic::Explore, args.verbose, host);
        say_rule(&mut out);
        say_topic(&mut out, QuickstartTopic::Export, args.verbose, host);
        say_rule(&mut out);
        say_topic(&mut out, QuickstartTopic::Search, args.verbose, host);
        say_rule(&mut out);
        say_topic(&mut out, QuickstartTopic::Stats, args.verbose, host);
        say_rule(&mut out);
        say_topic(&mut out, QuickstartTopic::Tui, args.verbose, host);
        say_rule(&mut out);
        say_topic(&mut out, QuickstartTopic::Workflows, args.verbose, host);
    } else {
        say_topic(&mut out, args.topic, args.verbose, host);
        proof {
            assert(views(out@) =~= topic_pages(args.topic, args.verbose, *host));
        }
    }
    out
}

/// The name of a topic.
pub open spec fn topic_name(topic: QuickstartTopic) -> Seq<char> {
    match topic {
        QuickstartTopic::Overview => "overview"@,
        QuickstartTopic::Explore => "explore"@,
        QuickstartTopic::Export => "export"@,
        QuickstartTopic::Search => "search"@,
        QuickstartTopic::Stats => "stats"@,
        QuickstartTopic::Tui => "tui"@,
        QuickstartTopic::Workflows => "workflows"@,
        QuickstartTopic::All => "all"@,
    }
}

fn name_of(topic: QuickstartTopic) -> (r: &'static str)
    ensures
        r@ == topic_name(topic),
{
    match topic {
        QuickstartTopic::Overview => "overview",
        QuickstartTopic::Explore => "explore",
        QuickstartTopic::Export => "export",
        QuickstartTopic::Search => "search",
        QuickstartTopic::Stats => "stats",
        QuickstartTopic::Tui => "tui",
        QuickstartTopic::Workflows => "workflows",
        QuickstartTopic::All => "all",
    }
}

/// The title of a topic.
pub open spec fn title(topic: QuickstartTopic) -> Seq<char> {
    match topic {
        QuickstartTopic::Overview => "Getting Started in 5 Minutes"@,
        QuickstartTopic::Explore => "Exploring Sessions and Projects"@,
        QuickstartTopic::Export => "Exporting Conversations"@,
        QuickstartTopic::Search => "Searching Sessions"@,
        QuickstartTopic::Stats => "Usage Statistics"@,
        QuickstartTopic::Tui => "Interactive TUI Browser"@,
        QuickstartTopic::Workflows => "Common Workflows"@,
        QuickstartTopic::All => "Complete Guide"@,
    }
}

/// The title of a topic.
pub fn topic_title(topic: QuickstartTopic) -> (r: &'static str)
    ensures
        r@ == title(topic),
{
    match topic {
        QuickstartTopic::Overview => "Getting Started in 5 Minutes",
        QuickstartTopic::Explore => "Exploring Sessions and Projects",
        QuickstartTopic::Export => "Exporting Conversations",
        QuickstartTopic::Search => "Searching Sessions",
        QuickstartTopic::Stats => "Usage Statistics",
        QuickstartTopic::Tui => "Interactive TUI Browser",
        QuickstartTopic::Workflows => "Common Workflows",
        QuickstartTopic::All => "Complete Guide",
    }
}

/// The examples of a topic.
pub open spec fn examples(topic: QuickstartTopic, verbose: bool) -> Seq<Seq<char>> {
    match topic {
        QuickstartTopic::Overview => if verbose {
            seq![
            "snatch list"@,
            "snatch list --project /path/to/project"@,
            "snatch export <session-id>"@,
            "snatch export <session-id> -f json -O output.json"@,
            "snatch stats --global"@,
        ]
        } else {
            seq![
            "snatch list"@,
            "snatch export <session-id>"@,
            "snatch stats"@,
        ]
        },
        QuickstartTopic::Explore => seq![
            "snatch list"@,
            "snatch list projects"@,
            "snatch info <session-id>"@,
        ],
        QuickstartTopic::Export => seq![
            "snatch export <session-id>"@,
            "snatch export <session-id> -f json"@,
            "snatch export <session-id> -f html --toc"@,
        ],
        QuickstartTopic::Search => seq![
            "snatch search \"pattern\""@,
            "snatch search \"error\" -i"@,
            "snatch index search \"query\""@,
        ],
        QuickstartTopic::Stats => seq![
            "snatch stats"@,
            "snatch stats --global --costs"@,
            "snatch stats --blocks"@,
        ],
        QuickstartTopic::Tui => seq![
            "snatch tui"@,
            "snatch tui --session <id>"@,
        ],
        QuickstartTopic::Workflows => seq![
            "snatch prompts --all > prompts.txt"@,
            "snatch standup --period 24h"@,
            "snatch export --all -f sqlite -O archive.db"@,
        ],
        QuickstartTopic::All => Seq::empty(),
    }
}

/// The examples of a topic.
pub fn topic_examples(topic: QuickstartTopic, verbose: bool) -> (r: Vec<String>)
    ensures
        views(r@) == examples(topic, verbose),
{
    let mut out: Vec<String> = Vec::new();
    match topic {
        QuickstartTopic::Overview => if verbose {
            text::say(&mut out, "snatch list");
            text::say(&mut out, "snatch list --project /path/to/project");
            text::say(&mut out, "snatch export <session-id>");
            text::say(&mut out, "snatch export <session-id> -f json -O output.json");
            text::say(&mut out, "snatch stats --global");
        } else {
            text::say(&mut out, "snatch list");
            text::say(&mut out, "snatch export <session-id>");
            text::say(&mut out, "snatch stats");
        },
        QuickstartTopic::Explore => {
            text::say(&mut out, "snatch list");
            text::say(&mut out, "snatch list projects");
            text::say(&mut out, "snatch info <session-id>");
        },
        QuickstartTopic::Export => {
            text::say(&mut out, "snatch export <session-id>");
            text::say(&mut out, "snatch export <session-id> -f json");
            text::say(&mut out, "snatch export <session-id> -f html --toc");
        },
        QuickstartTopic::Search => {
            text::say(&mut out, "snatch search \"pattern\"");
            text::say(&mut out, "snatch search \"error\" -i");
            text::say(&mut out, "snatch index search \"query\"");
        },
        QuickstartTopic::Stats => {
            text::say(&mut out, "snatch stats");
            text::say(&mut out, "snatch stats --global --costs");
            text::say(&mut out, "snatch stats --blocks");
        },
        QuickstartTopic::Tui => {
            text::say(&mut out, "snatch tui");
            text::say(&mut out, "snatch tui --session <id>");
        },
        QuickstartTopic::Workflows => {
            text::say(&mut out, "snatch prompts --all > prompts.txt");
            text::say(&mut out, "snatch standup --period 24h");
            text::say(&mut out, "snatch export --all -f sqlite -O archive.db");
        },
        QuickstartTopic::All => {},
    }
    proof {
        assert(views(out@) =~= examples(topic, verbose));
    }
    out
}

/// A topic as a JSON object.
pub open spec fn topic_json(topic: QuickstartTopic, verbose: bool) -> JsonView {
    JsonView::Object(
        seq![
            ("topic"@, JsonView::Text(topic_name(topic))),
            ("title"@, JsonView::Text(title(topic))),
            ("examples"@, texts_json(examples(topic, verbose))),
        ],
    )
}

/// The topics of a request.
pub open spec fn topics_of(topic: QuickstartTopic) -> Seq<QuickstartTopic> {
    if topic == QuickstartTopic::All {
        seq![
            QuickstartTopic::Overview,
            QuickstartTopic::Explore,
            QuickstartTopic::Export,
            QuickstartTopic::Search,
            QuickstartTopic::Stats,
            QuickstartTopic::Tui,
            QuickstartTopic::Workflows,
        ]
    } else {
        seq![topic]
    }
}

fn write_topic(topic: QuickstartTopic, verbose: bool) -> (r: Json)
    ensures
        r@ == topic_json(topic, verbose),
{
    let mut fields: Vec<(String, Json)> = Vec::new();
    json::put(&mut fields, "topic", json::of_text(name_of(topic)));
    json::put(&mut fields, "title", json::of_text(topic_title(topic)));
    let list = topic_examples(topic, verbose);
    json::put(&mut fields, "examples", json::of_texts(&list));
    proof {
        assert(fields_view(fields@) =~= seq![
            ("topic"@, JsonView::Text(topic_name(topic))),
            ("title"@, JsonView::Text(title(topic))),
            ("examples"@, texts_json(examples(topic, verbose))),
        ]);
    }
    Json::Object(fields)
}

/// The topics of a request, as JSON.
pub fn show_json(args: &QuickstartArgs) -> (r: Json)
    ensures
        r@ == JsonView::Array(
            topics_of(args.topic).map_values(|t: QuickstartTopic| topic_json(t, args.verbose)),
        ),
{
    let mut topics: Vec<QuickstartTopic> = Vec::new();
    if args.topic == QuickstartTopic::All {
        topics.push(QuickstartTopic::Overview);
        topics.push(QuickstartTopic::Explore);
        topics.push(QuickstartTopic::Export);
        topics.push(QuickstartTopic::Search);
        topics.push(QuickstartTopic::Stats);
        topics.push(QuickstartTopic::Tui);
        topics.push(QuickstartTopic::Workflows);
    } else {
        topics.push(args.topic);
    }
    proof {
        assert(topics@ =~= topics_of(args.topic));
    }
    let verbose: bool = args.verbose;
    let write = |t: &QuickstartTopic| -> (o: Json)
        ensures
            o@ == topic_json(*t, verbose),
        { write_topic(*t, verbose) };
    let ghost g = |t: QuickstartTopic| topic_json(t, args.verbose);
    json::of_list(&topics, write, Ghost(g))
}

/// What a request is answered with.
#[derive(Debug)]
pub enum QuickstartOutput {
    /// A JSON value.
    Value(Json),
    /// Pages.
    Pages(Vec<String>),
}

/// The guide: topics as JSON, or pages for a reader.
pub fn run(format: OutputFormat, args: &QuickstartArgs, host: &Host) -> (r: QuickstartOutput)
    ensures
        if format == OutputFormat::Json {
            r matches QuickstartOutput::Value(j) && j@ == JsonView::Array(
                topics_of(args.topic).map_values(|t: QuickstartTopic| topic_json(t, args.verbose)),
            )
        } else {
            r matches QuickstartOutput::Pages(p) && views(p@) == text_pages(*args, *host)
        },
{
    if format == OutputFormat::Json {
        QuickstartOutput::Value(show_json(args))
    } else {
        QuickstartOutput::Pages(show_text(args, host))
    }
}

// ---------------------------------------------------------------------------
// Topics
// ---------------------------------------------------------------------------

/// All topics are every topic but the word for all of them, each once; a topic alone is itself.
pub proof fn topics_are_told_once(topic: QuickstartTopic, t: QuickstartTopic)
    ensures
        !(topic is All) ==> (topics_of(topic).contains(t) <==> t == topic),
        topics_of(QuickstartTopic::All).contains(t) <==> !(t is All),
        topics_of(topic).no_duplicates(),
{
    let all = topics_of(QuickstartTopic::All);
    assert(all[0] is Overview && all[1] is Explore && all[2] is Export && all[3] is Search && all[4]
        is Stats && all[5] is Tui && all[6] is Workflows);
    if !(topic is All) {
        assert(topics_of(topic)[0] == topic);
    }
    match t {
        QuickstartTopic::Overview => assert(all[0] == t),
        QuickstartTopic::Explore => assert(all[1] == t),
        QuickstartTopic::Export => assert(all[2] == t),
        QuickstartTopic::Search => assert(all[3] == t),
        QuickstartTopic::Stats => assert(all[4] == t),
        QuickstartTopic::Tui => assert(all[5] == t),
        QuickstartTopic::Workflows => assert(all[6] == t),
        QuickstartTopic::All => {},
    }
}

} // verus!
