//! The settings of the program: what they are, how they are read and changed.
use vstd::prelude::*;

use crate::commands::extract::{truth, write_truth};
use crate::commands::chain::write_or;
use crate::commands::helpers::text_view;
use crate::error::{ErrorView, SnatchError};
use crate::json;
use crate::json::{fields_view, number_json, rendered, Json, JsonView};
use crate::text;
use crate::text::{
    decimal, is_ascii_text, joined, lowercase, number_of, small_letters, views,
};

verus! {

/// An amount of money.
#[derive(Debug, Clone, PartialEq, Eq)]
pub struct Amount {
    /// As a JSON value: a number, or `null` where JSON has none for it.
    pub exact: String,
    /// With two digits after the point.
    pub two_places: String,
}

/// A part of a whole.
#[derive(Debug, Clone, PartialEq, Eq)]
pub struct Share {
    /// As a JSON value: a number, or `null` where JSON has none for it.
    pub exact: String,
    /// In percent, without digits after the point.
    pub percent: String,
}

/// The settings.
#[derive(Debug, Clone, PartialEq, Eq)]
pub struct Config {
    /// The form of output.
    pub format: String,
    /// Thoughts are written.
    pub include_thinking: bool,
    /// Calls of tools are written.
    pub include_tool_use: bool,
    /// Times are written.
    pub include_timestamps: bool,
    /// JSON for people.
    pub pretty_json: bool,
    /// The name of the theme.
    pub theme_name: String,
    /// Colours are used.
    pub color: bool,
    /// Signs beyond ASCII are used.
    pub unicode: bool,
    /// Ids are shown in full.
    pub full_ids: bool,
    /// Sizes are shown.
    pub show_sizes: bool,
    /// Where texts are cut.
    pub truncate_at: usize,
    /// The number of lines around a match.
    pub context_lines: usize,
    /// The cache is used.
    pub cache_enabled: bool,
    /// The directory of the cache.
    pub cache_directory: Option<String>,
    /// The most bytes of the cache.
    pub cache_max_size: u64,
    /// How long the cache keeps something.
    pub cache_ttl_seconds: u64,
    /// The most that is spent in a day.
    pub daily_limit: Option<Amount>,
    /// The most that is spent in a week.
    pub weekly_limit: Option<Amount>,
    /// The most that is spent in a month.
    pub monthly_limit: Option<Amount>,
    /// The part of a limit at which there is a warning.
    pub warning_threshold: Share,
    /// Limits are shown with the numbers.
    pub show_in_stats: bool,
}

/// The contents of an amount of money.
#[verifier::ext_equal]
pub struct AmountView {
    /// As a JSON value.
    pub exact: Seq<char>,
    /// With two digits after the point.
    pub two_places: Seq<char>,
}

impl View for Amount {
    type V = AmountView;

    open spec fn view(&self) -> AmountView {
        AmountView { exact: self.exact@, two_places: self.two_places@ }
    }
}

/// The contents of a part of a whole.
#[verifier::ext_equal]
pub struct ShareView {
    /// As a JSON value.
    pub exact: Seq<char>,
    /// In percent.
    pub percent: Seq<char>,
}

impl View for Share {
    type V = ShareView;

    open spec fn view(&self) -> ShareView {
        ShareView { exact: self.exact@, percent: self.percent@ }
    }
}

/// The contents of a limit.
pub open spec fn limit_view(limit: Option<Amount>) -> Option<AmountView> {
    match limit {
        Some(a) => Some(a@),
        None => None,
    }
}

/// The contents of the settings: all of them, and whether a limit or a directory is set.
#[verifier::ext_equal]
pub struct ConfigView {
    /// The form of output.
    pub format: Seq<char>,
    /// Thoughts are written.
    pub include_thinking: bool,
    /// Calls of tools are written.
    pub include_tool_use: bool,
    /// Times are written.
    pub include_timestamps: bool,
    /// JSON for people.
    pub pretty_json: bool,
    /// The name of the theme.
    pub theme_name: Seq<char>,
    /// Colours are used.
    pub color: bool,
    /// Signs beyond ASCII are used.
    pub unicode: bool,
    /// Ids are shown in full.
    pub full_ids: bool,
    /// Sizes are shown.
    pub show_sizes: bool,
    /// Where texts are cut.
    pub truncate_at: usize,
    /// The number of lines around a match.
    pub context_lines: usize,
    /// The cache is used.
    pub cache_enabled: bool,
    /// The directory of the cache.
    pub cache_directory: Option<Seq<char>>,
    /// The most bytes of the cache.
    pub cache_max_size: u64,
    /// How long the cache keeps something.
    pub cache_ttl_seconds: u64,
    /// The most that is spent in a day.
    pub daily_limit: Option<AmountView>,
    /// The most that is spent in a week.
    pub weekly_limit: Option<AmountView>,
    /// The most that is spent in a month.
    pub monthly_limit: Option<AmountView>,
    /// The part of a limit at which there is a warning.
    pub warning_threshold: ShareView,
    /// Limits are shown with the numbers.
    pub show_in_stats: bool,
}

impl View for Config {
    type V = ConfigView;

    open spec fn view(&self) -> ConfigView {
        ConfigView {
            format: self.format@,
            include_thinking: self.include_thinking,
            include_tool_use: self.include_tool_use,
            include_timestamps: self.include_timestamps,
            pretty_json: self.pretty_json,
            theme_name: self.theme_name@,
            color: self.color,
            unicode: self.unicode,
            full_ids: self.full_ids,
            show_sizes: self.show_sizes,
            truncate_at: self.truncate_at,
            context_lines: self.context_lines,
            cache_enabled: self.cache_enabled,
            cache_directory: text_view(self.cache_directory),
            cache_max_size: self.cache_max_size,
            cache_ttl_seconds: self.cache_ttl_seconds,
            daily_limit: limit_view(self.daily_limit),
            weekly_limit: limit_view(self.weekly_limit),
            monthly_limit: limit_view(self.monthly_limit),
            warning_threshold: self.warning_threshold@,
            show_in_stats: self.show_in_stats,
        }
    }
}

/// A setting.
#[derive(Debug, Clone, Copy, PartialEq, Eq, Structural)]
pub enum ConfigKey {
    /// `default_format.format`
    FormatName,
    /// `default_format.include_thinking`
    IncludeThinking,
    /// `default_format.include_tool_use`
    IncludeToolUse,
    /// `default_format.include_timestamps`
    IncludeTimestamps,
    /// `default_format.pretty_json`
    PrettyJson,
    /// `theme.name`
    ThemeName,
    /// `theme.color`
    Color,
    /// `theme.unicode`
    Unicode,
    /// `display.full_ids`
    FullIds,
    /// `display.show_sizes`
    ShowSizes,
    /// `display.truncate_at`
    TruncateAt,
    /// `display.context_lines`
    ContextLines,
    /// `cache.enabled`
    CacheEnabled,
    /// `cache.directory`
    CacheDirectory,
    /// `cache.max_size`
    CacheMaxSize,
    /// `cache.ttl_seconds`
    CacheTtl,
    /// `budget.daily_limit`
    DailyLimit,
    /// `budget.weekly_limit`
    WeeklyLimit,
    /// `budget.monthly_limit`
    MonthlyLimit,
    /// `budget.warning_threshold`
    WarningThreshold,
    /// `budget.show_in_stats`
    ShowInStats,
}

/// The setting of a name.
pub open spec fn key_of(name: Seq<char>) -> Option<ConfigKey> {
    if name == "default_format.format"@ {
        Some(ConfigKey::FormatName)
    } else if name == "default_format.include_thinking"@ {
        Some(ConfigKey::IncludeThinking)
    } else if name == "default_format.include_tool_use"@ {
        Some(ConfigKey::IncludeToolUse)
    } else if name == "default_format.include_timestamps"@ {
        Some(ConfigKey::IncludeTimestamps)
    } else if name == "default_format.pretty_json"@ {
        Some(ConfigKey::PrettyJson)
    } else if name == "theme.name"@ {
        Some(ConfigKey::ThemeName)
    } else if name == "theme.color"@ {
        Some(ConfigKey::Color)
    } else if name == "theme.unicode"@ {
        Some(ConfigKey::Unicode)
    } else if name == "display.full_ids"@ {
        Some(ConfigKey::FullIds)
    } else if name == "display.show_sizes"@ {
        Some(ConfigKey::ShowSizes)
    } else if name == "display.truncate_at"@ {
        Some(ConfigKey::TruncateAt)
    } else if name == "display.context_lines"@ {
        Some(ConfigKey::ContextLines)
    } else if name == "cache.enabled"@ {
        Some(ConfigKey::CacheEnabled)
    } else if name == "cache.directory"@ {
        Some(ConfigKey::CacheDirectory)
    } else if name == "cache.max_size"@ {
        Some(ConfigKey::CacheMaxSize)
    } else if name == "cache.ttl_seconds"@ {
        Some(ConfigKey::CacheTtl)
    } else if name == "budget.daily_limit"@ {
        Some(ConfigKey::DailyLimit)
    } else if name == "budget.weekly_limit"@ {
        Some(ConfigKey::WeeklyLimit)
    } else if name == "budget.monthly_limit"@ {
        Some(ConfigKey::MonthlyLimit)
    } else if name == "budget.warning_threshold"@ {
        Some(ConfigKey::WarningThreshold)
    } else if name == "budget.show_in_stats"@ {
        Some(ConfigKey::ShowInStats)
    } else {
        None
    }
}

/// The setting of a name.
pub fn parse_key(name: &str) -> (r: Option<ConfigKey>)
    ensures
        r == key_of(name@),
{
    if text::same(name, "default_format.format") {
        Some(ConfigKey::FormatName)
    } else if text::same(name, "default_format.include_thinking") {
        Some(ConfigKey::IncludeThinking)
    } else if text::same(name, "default_format.include_tool_use") {
        Some(ConfigKey::IncludeToolUse)
    } else if text::same(name, "default_format.include_timestamps") {
        Some(ConfigKey::IncludeTimestamps)
    } else if text::same(name, "default_format.pretty_json") {
        Some(ConfigKey::PrettyJson)
    } else if text::same(name, "theme.name") {
        Some(ConfigKey::ThemeName)
    } else if text::same(name, "theme.color") {
        Some(ConfigKey::Color)
    } else if text::same(name, "theme.unicode") {
        Some(ConfigKey::Unicode)
    } else if text::same(name, "display.full_ids") {
        Some(ConfigKey::FullIds)
    } else if text::same(name, "display.show_sizes") {
        Some(ConfigKey::ShowSizes)
    } else if text::same(name, "display.truncate_at") {
        Some(ConfigKey::TruncateAt)
    } else if text::same(name, "display.context_lines") {
        Some(ConfigKey::ContextLines)
    } else if text::same(name, "cache.enabled") {
        Some(ConfigKey::CacheEnabled)
    } else if text::same(name, "cache.directory") {
        Some(ConfigKey::CacheDirectory)
    } else if text::same(name, "cache.max_size") {
        Some(ConfigKey::CacheMaxSize)
    } else if text::same(name, "cache.ttl_seconds") {
        Some(ConfigKey::CacheTtl)
    } else if text::same(name, "budget.daily_limit") {
        Some(ConfigKey::DailyLimit)
    } else if text::same(name, "budget.weekly_limit") {
        Some(ConfigKey::WeeklyLimit)
    } else if text::same(name, "budget.monthly_limit") {
        Some(ConfigKey::MonthlyLimit)
    } else if text::same(name, "budget.warning_threshold") {
        Some(ConfigKey::WarningThreshold)
    } else if text::same(name, "budget.show_in_stats") {
        Some(ConfigKey::ShowInStats)
    } else {
        None
    }
}

/// What can be done with the settings.
#[derive(Debug, Clone, PartialEq, Eq)]
pub enum ConfigAction {
    /// Show all.
    Show,
    /// Show one.
    Get {
        /// Its name.
        key: String,
    },
    /// Change one.
    Change {
        /// Its name.
        key: String,
        /// Its new value.
        value: String,
    },
    /// Show where they are kept.
    Path,
    /// Make the file.
    Init,
    /// Make the file anew.
    Reset,
}

/// The error for a name that no setting has.
pub open spec fn unknown_key(name: Seq<char>) -> ErrorView {
    ErrorView::ConfigError { message: "Unknown configuration key: "@ + name }
}

fn key_error(name: &str) -> (r: SnatchError)
    ensures
        r@ == unknown_key(name@),
{
    SnatchError::ConfigError { message: text::cat2("Unknown configuration key: ", name) }
}

// ---------------------------------------------------------------------------
// Reading
// ---------------------------------------------------------------------------

/// A limit, as it is shown.
pub open spec fn shown_limit(limit: Option<AmountView>) -> Seq<char> {
    match limit {
        Some(a) => a.two_places,
        None => "(not set)"@,
    }
}

fn write_limit(limit: &Option<Amount>) -> (r: String)
    ensures
        r@ == shown_limit(limit_view(*limit)),
{
    match limit {
        Some(a) => a.two_places.clone(),
        None => "(not set)".to_owned(),
    }
}

/// The value of a setting, as it is shown.
pub open spec fn value_of(c: ConfigView, key: ConfigKey) -> Seq<char> {
    match key {
        ConfigKey::FormatName => c.format,
        ConfigKey::IncludeThinking => truth(c.include_thinking),
        ConfigKey::IncludeToolUse => truth(c.include_tool_use),
        ConfigKey::IncludeTimestamps => truth(c.include_timestamps),
        ConfigKey::PrettyJson => truth(c.pretty_json),
        ConfigKey::ThemeName => c.theme_name,
        ConfigKey::Color => truth(c.color),
        ConfigKey::Unicode => truth(c.unicode),
        ConfigKey::FullIds => truth(c.full_ids),
        ConfigKey::ShowSizes => truth(c.show_sizes),
        ConfigKey::TruncateAt => decimal(c.truncate_at as nat),
        ConfigKey::ContextLines => decimal(c.context_lines as nat),
        ConfigKey::CacheEnabled => truth(c.cache_enabled),
        ConfigKey::CacheDirectory => match c.cache_directory {
            Some(d) => d,
            None => "(auto-detect)"@,
        },
        ConfigKey::CacheMaxSize => decimal(c.cache_max_size as nat),
        ConfigKey::CacheTtl => decimal(c.cache_ttl_seconds as nat),
        ConfigKey::DailyLimit => shown_limit(c.daily_limit),
        ConfigKey::WeeklyLimit => shown_limit(c.weekly_limit),
        ConfigKey::MonthlyLimit => shown_limit(c.monthly_limit),
        ConfigKey::WarningThreshold => c.warning_threshold.percent,
        ConfigKey::ShowInStats => truth(c.show_in_stats),
    }
}

fn write_value(c: &Config, key: ConfigKey) -> (r: String)
    ensures
        r@ == value_of(c@, key),
{
    match key {
        ConfigKey::FormatName => c.format.clone(),
        ConfigKey::IncludeThinking => write_truth(c.include_thinking),
        ConfigKey::IncludeToolUse => write_truth(c.include_tool_use),
        ConfigKey::IncludeTimestamps => write_truth(c.include_timestamps),
        ConfigKey::PrettyJson => write_truth(c.pretty_json),
        ConfigKey::ThemeName => c.theme_name.clone(),
        ConfigKey::Color => write_truth(c.color),
        ConfigKey::Unicode => write_truth(c.unicode),
        ConfigKey::FullIds => write_truth(c.full_ids),
        ConfigKey::ShowSizes => write_truth(c.show_sizes),
        ConfigKey::TruncateAt => text::size(c.truncate_at),
        ConfigKey::ContextLines => text::size(c.context_lines),
        ConfigKey::CacheEnabled => write_truth(c.cache_enabled),
        ConfigKey::CacheDirectory => write_or(&c.cache_directory, "(auto-detect)"),
        ConfigKey::CacheMaxSize => text::number(c.cache_max_size),
        ConfigKey::CacheTtl => text::number(c.cache_ttl_seconds),
        ConfigKey::DailyLimit => write_limit(&c.daily_limit),
        ConfigKey::WeeklyLimit => write_limit(&c.weekly_limit),
        ConfigKey::MonthlyLimit => write_limit(&c.monthly_limit),
        ConfigKey::WarningThreshold => c.warning_threshold.percent.clone(),
        ConfigKey::ShowInStats => write_truth(c.show_in_stats),
    }
}

/// The value of a setting, as it is shown.
pub fn get_config_value(c: &Config, key: &str) -> (r: Result<String, SnatchError>)
    ensures
        match key_of(key@) {
            Some(k) => r matches Ok(v) && v@ == value_of(c@, k),
            None => r matches Err(e) && e@ == unknown_key(key@),
        },
{
    match parse_key(key) {
        Some(k) => Ok(write_value(c, k)),
        None => Err(key_error(key)),
    }
}

// ---------------------------------------------------------------------------
// Changing
// ---------------------------------------------------------------------------

/// What a value is as a decimal number.
#[derive(Debug, Clone, PartialEq, Eq)]
pub struct DecimalTexts {
    /// As an amount of money.
    pub amount: Amount,
    /// As a part of a whole: a number up to one is that part, a greater one is in percent.
    pub share: Share,
}

/// Yes or no, in small letters.
pub open spec fn truth_of(lower: Seq<char>) -> Option<bool> {
    if lower == "true"@ || lower == "yes"@ || lower == "1"@ || lower == "on"@ {
        Some(true)
    } else if lower == "false"@ || lower == "no"@ || lower == "0"@ || lower == "off"@ {
        Some(false)
    } else {
        None
    }
}

/// Yes or no, in small letters.
pub fn bool_of_lower(lower: &str) -> (r: Option<bool>)
    ensures
        r == truth_of(lower@),
{
    if text::same(lower, "true") || text::same(lower, "yes") || text::same(lower, "1")
        || text::same(lower, "on") {
        Some(true)
    } else if text::same(lower, "false") || text::same(lower, "no") || text::same(lower, "0")
        || text::same(lower, "off") {
        Some(false)
    } else {
        None
    }
}

/// The error for a value that is neither yes nor no.
pub open spec fn bad_bool(s: Seq<char>) -> ErrorView {
    ErrorView::ConfigError { message: "Invalid boolean value: "@ + s + ". Use true/false."@ }
}

proof fn lemma_truths_are_small(b: bool)
    ensures
        is_ascii_text(truth(b)),
        small_letters(truth(b)) == truth(b),
        truth_of(truth(b)) == Some(b),
{
    reveal_strlit("true");
    reveal_strlit("false");
    reveal_strlit("yes");
    reveal_strlit("1");
    reveal_strlit("on");
    assert("false"@.len() == 5);
    assert("true"@.len() == 4);
    assert("yes"@.len() == 3);
    assert("1"@.len() == 1);
    assert("on"@.len() == 2);
    assert(small_letters(truth(b)) =~= truth(b));
}

/// Yes or no. What a setting of yes or no shows is read as what it is.
pub fn parse_bool(s: &str) -> (r: Result<bool, SnatchError>)
    ensures
        match truth_of(lowercase(s@)) {
            Some(b) => r == Ok::<bool, SnatchError>(b),
            None => r matches Err(e) && e@ == bad_bool(s@),
        },
        is_ascii_text(s@) ==> match truth_of(small_letters(s@)) {
            Some(b) => r == Ok::<bool, SnatchError>(b),
            None => r is Err,
        },
        s@ == truth(true) ==> r == Ok::<bool, SnatchError>(true),
        s@ == truth(false) ==> r == Ok::<bool, SnatchError>(false),
{
    proof {
        lemma_truths_are_small(true);
        lemma_truths_are_small(false);
    }
    let lower = text::to_lowercase(s);
    match bool_of_lower(lower.as_str()) {
        Some(b) => Ok(b),
        None => Err(
            SnatchError::ConfigError {
                message: text::cat3("Invalid boolean value: ", s, ". Use true/false."),
            },
        ),
    }
}

/// The error for a value that is no number.
pub open spec fn bad_number(s: Seq<char>) -> ErrorView {
    ErrorView::ConfigError { message: "Invalid number: "@ + s }
}

/// A number.
pub fn parse_u64(s: &str) -> (r: Result<u64, SnatchError>)
    ensures
        match number_of(s@, u64::MAX as nat) {
            Some(n) => r matches Ok(v) && v == n,
            None => r matches Err(e) && e@ == bad_number(s@),
        },
{
    match text::parse_number(s, u64::MAX) {
        Some(n) => Ok(n),
        None => Err(SnatchError::ConfigError { message: text::cat2("Invalid number: ", s) }),
    }
}

/// A number of the machine.
pub fn parse_usize(s: &str) -> (r: Result<usize, SnatchError>)
    ensures
        match number_of(s@, usize::MAX as nat) {
            Some(n) => r matches Ok(v) && v == n,
            None => r matches Err(e) && e@ == bad_number(s@),
        },
{
    match text::parse_number(s, usize::MAX as u64) {
        Some(n) => Ok(n as usize),
        None => Err(SnatchError::ConfigError { message: text::cat2("Invalid number: ", s) }),
    }
}

/// A word in small letters that takes a limit away.
pub open spec fn clears(lower: Seq<char>) -> bool {
    lower == "none"@ || lower == "unset"@ || lower == "clear"@ || lower == "0"@ || lower == ""@
}

/// Whether a word in small letters takes a limit away.
pub fn is_clearing(lower: &str) -> (r: bool)
    ensures
        r == clears(lower@),
{
    text::same(lower, "none") || text::same(lower, "unset") || text::same(lower, "clear")
        || text::same(lower, "0") || text::same(lower, "")
}

/// The error for a limit that is no number.
pub open spec fn bad_limit(s: Seq<char>) -> ErrorView {
    ErrorView::ConfigError {
        message: "Invalid decimal number: "@ + s
            + ". Use a number like 100.00 or 'none' to clear."@,
    }
}

/// A limit that was given, or why it cannot be used.
pub open spec fn new_limit(value: Seq<char>, number: Option<DecimalTexts>) -> Result<
    Option<AmountView>,
    ErrorView,
> {
    if clears(lowercase(value)) {
        Ok(None)
    } else {
        match number {
            Some(n) => Ok(Some(n.amount@)),
            None => Err(bad_limit(value)),
        }
    }
}

fn parse_limit(s: &str, number: &Option<DecimalTexts>) -> (r: Result<Option<Amount>, SnatchError>)
    ensures
        match new_limit(s@, *number) {
            Ok(limit) => r matches Ok(v) && limit_view(v) == limit,
            Err(error) => r matches Err(e) && e@ == error,
        },
{
    let lower = text::to_lowercase(s);
    if is_clearing(lower.as_str()) {
        return Ok(None);
    }
    match number {
        Some(n) => Ok(
            Some(
                Amount {
                    exact: n.amount.exact.clone(),
                    two_places: n.amount.two_places.clone(),
                },
            ),
        ),
        None => Err(
            SnatchError::ConfigError {
                message: text::cat3(
                    "Invalid decimal number: ",
                    s,
                    ". Use a number like 100.00 or 'none' to clear.",
                ),
            },
        ),
    }
}

/// The error for a part that is no number.
pub open spec fn bad_percent(s: Seq<char>) -> ErrorView {
    ErrorView::ConfigError { message: "Invalid decimal number: "@ + s }
}

/// A part that was given, or why it cannot be used.
pub open spec fn new_share(value: Seq<char>, number: Option<DecimalTexts>) -> Result<
    ShareView,
    ErrorView,
> {
    match number {
        Some(n) => Ok(n.share@),
        None => Err(bad_percent(value)),
    }
}

fn parse_share(s: &str, number: &Option<DecimalTexts>) -> (r: Result<Share, SnatchError>)
    ensures
        match new_share(s@, *number) {
            Ok(share) => r matches Ok(v) && v@ == share,
            Err(error) => r matches Err(e) && e@ == error,
        },
{
    match number {
        Some(n) => Ok(
            Share { exact: n.share.exact.clone(), percent: n.share.percent.clone() },
        ),
        None => Err(
            SnatchError::ConfigError { message: text::cat2("Invalid decimal number: ", s) },
        ),
    }
}

/// Yes or no as it was given, or why it cannot be used.
pub open spec fn given_truth(value: Seq<char>) -> Result<bool, ErrorView> {
    match truth_of(lowercase(value)) {
        Some(b) => Ok(b),
        None => Err(bad_bool(value)),
    }
}

/// A number that was given, or why it cannot be used.
pub open spec fn given_number(value: Seq<char>, max: nat) -> Result<nat, ErrorView> {
    match number_of(value, max) {
        Some(n) => Ok(n),
        None => Err(bad_number(value)),
    }
}

/// The settings after one was changed, or why it cannot be. `number` is what the value is as a
/// decimal number.
pub open spec fn changed(
    c: ConfigView,
    key: ConfigKey,
    value: Seq<char>,
    number: Option<DecimalTexts>,
) -> Result<ConfigView, ErrorView> {
    match key {
        ConfigKey::FormatName => Ok(ConfigView { format: value, ..c }),
        ConfigKey::IncludeThinking => match given_truth(value) {
            Ok(b) => Ok(ConfigView { include_thinking: b, ..c }),
            Err(e) => Err(e),
        },
        ConfigKey::IncludeToolUse => match given_truth(value) {
            Ok(b) => Ok(ConfigView { include_tool_use: b, ..c }),
            Err(e) => Err(e),
        },
        ConfigKey::IncludeTimestamps => match given_truth(value) {
            Ok(b) => Ok(ConfigView { include_timestamps: b, ..c }),
            Err(e) => Err(e),
        },
        ConfigKey::PrettyJson => match given_truth(value) {
            Ok(b) => Ok(ConfigView { pretty_json: b, ..c }),
            Err(e) => Err(e),
        },
        ConfigKey::ThemeName => Ok(ConfigView { theme_name: value, ..c }),
        ConfigKey::Color => match given_truth(value) {
            Ok(b) => Ok(ConfigView { color: b, ..c }),
            Err(e) => Err(e),
        },
        ConfigKey::Unicode => match given_truth(value) {
            Ok(b) => Ok(ConfigView { unicode: b, ..c }),
            Err(e) => Err(e),
        },
        ConfigKey::FullIds => match given_truth(value) {
            Ok(b) => Ok(ConfigView { full_ids: b, ..c }),
            Err(e) => Err(e),
        },
        ConfigKey::ShowSizes => match given_truth(value) {
            Ok(b) => Ok(ConfigView { show_sizes: b, ..c }),
            Err(e) => Err(e),
        },
        ConfigKey::TruncateAt => match given_number(value, usize::MAX as nat) {
            Ok(n) => Ok(ConfigView { truncate_at: n as usize, ..c }),
            Err(e) => Err(e),
        },
        ConfigKey::ContextLines => match given_number(value, usize::MAX as nat) {
            Ok(n) => Ok(ConfigView { context_lines: n as usize, ..c }),
            Err(e) => Err(e),
        },
        ConfigKey::CacheEnabled => match given_truth(value) {
            Ok(b) => Ok(ConfigView { cache_enabled: b, ..c }),
            Err(e) => Err(e),
        },
        ConfigKey::CacheDirectory => Ok(ConfigView { cache_directory: Some(value), ..c }),
        ConfigKey::CacheMaxSize => match given_number(value, u64::MAX as nat) {
            Ok(n) => Ok(ConfigView { cache_max_size: n as u64, ..c }),
            Err(e) => Err(e),
        },
        ConfigKey::CacheTtl => match given_number(value, u64::MAX as nat) {
            Ok(n) => Ok(ConfigView { cache_ttl_seconds: n as u64, ..c }),
            Err(e) => Err(e),
        },
        ConfigKey::DailyLimit => match new_limit(value, number) {
            Ok(limit) => Ok(ConfigView { daily_limit: limit, ..c }),
            Err(e) => Err(e),
        },
        ConfigKey::WeeklyLimit => match new_limit(value, number) {
            Ok(limit) => Ok(ConfigView { weekly_limit: limit, ..c }),
            Err(e) => Err(e),
        },
        ConfigKey::MonthlyLimit => match new_limit(value, number) {
            Ok(limit) => Ok(ConfigView { monthly_limit: limit, ..c }),
            Err(e) => Err(e),
        },
        ConfigKey::WarningThreshold => match new_share(value, number) {
            Ok(share) => Ok(ConfigView { warning_threshold: share, ..c }),
            Err(e) => Err(e),
        },
        ConfigKey::ShowInStats => match given_truth(value) {
            Ok(b) => Ok(ConfigView { show_in_stats: b, ..c }),
            Err(e) => Err(e),
        },
    }
}

/// All other settings are as they were.
pub open spec fn others_kept(after: ConfigView, before: ConfigView, key: ConfigKey) -> bool {
    &&& !(key is FormatName) ==> after.format == before.format
    &&& !(key is IncludeThinking) ==> after.include_thinking == before.include_thinking
    &&& !(key is IncludeToolUse) ==> after.include_tool_use == before.include_tool_use
    &&& !(key is IncludeTimestamps) ==> after.include_timestamps == before.include_timestamps
    &&& !(key is PrettyJson) ==> after.pretty_json == before.pretty_json
    &&& !(key is ThemeName) ==> after.theme_name == before.theme_name
    &&& !(key is Color) ==> after.color == before.color
    &&& !(key is Unicode) ==> after.unicode == before.unicode
    &&& !(key is FullIds) ==> after.full_ids == before.full_ids
    &&& !(key is ShowSizes) ==> after.show_sizes == before.show_sizes
    &&& !(key is TruncateAt) ==> after.truncate_at == before.truncate_at
    &&& !(key is ContextLines) ==> after.context_lines == before.context_lines
    &&& !(key is CacheEnabled) ==> after.cache_enabled == before.cache_enabled
    &&& !(key is CacheDirectory) ==> after.cache_directory == before.cache_directory
    &&& !(key is CacheMaxSize) ==> after.cache_max_size == before.cache_max_size
    &&& !(key is CacheTtl) ==> after.cache_ttl_seconds == before.cache_ttl_seconds
    &&& !(key is DailyLimit) ==> after.daily_limit == before.daily_limit
    &&& !(key is WeeklyLimit) ==> after.weekly_limit == before.weekly_limit
    &&& !(key is MonthlyLimit) ==> after.monthly_limit == before.monthly_limit
    &&& !(key is WarningThreshold) ==> after.warning_threshold == before.warning_threshold
    &&& !(key is ShowInStats) ==> after.show_in_stats == before.show_in_stats
}

/// Changing a setting leaves all others as they are.
pub proof fn changes_leave_others_alone(
    c: ConfigView,
    key: ConfigKey,
    value: Seq<char>,
    number: Option<DecimalTexts>,
)
    requires
        changed(c, key, value, number) is Ok,
    ensures
        others_kept(changed(c, key, value, number)->Ok_0, c, key),
{
    match key {
        ConfigKey::FormatName => {},
        ConfigKey::IncludeThinking => {},
        ConfigKey::IncludeToolUse => {},
        ConfigKey::IncludeTimestamps => {},
        ConfigKey::PrettyJson => {},
        ConfigKey::ThemeName => {},
        ConfigKey::Color => {},
        ConfigKey::Unicode => {},
        ConfigKey::FullIds => {},
        ConfigKey::ShowSizes => {},
        ConfigKey::TruncateAt => {},
        ConfigKey::ContextLines => {},
        ConfigKey::CacheEnabled => {},
        ConfigKey::CacheDirectory => {},
        ConfigKey::CacheMaxSize => {},
        ConfigKey::CacheTtl => {},
        ConfigKey::DailyLimit => {},
        ConfigKey::WeeklyLimit => {},
        ConfigKey::MonthlyLimit => {},
        ConfigKey::WarningThreshold => {},
        ConfigKey::ShowInStats => {},
    }
}

/// Settings that are as they were show what they showed.
pub proof fn kept_settings_show_the_same(
    after: ConfigView,
    before: ConfigView,
    key: ConfigKey,
    other: ConfigKey,
)
    requires
        others_kept(after, before, key),
        other != key,
    ensures
        value_of(after, other) == value_of(before, other),
{
}

#[verifier::rlimit(60)]
#[verifier::spinoff_prover]
fn change(c: &mut Config, key: ConfigKey, value: &str, number: &Option<DecimalTexts>) -> (r: Result<
    (),
    SnatchError,
>)
    ensures
        match changed(old(c)@, key, value@, *number) {
            Ok(after) => r is Ok && final(c)@ == after,
            Err(error) => r matches Err(e) && e@ == error && *final(c) == *old(c),
        },
{
    match key {
        ConfigKey::FormatName => {
            c.format = value.to_owned();
        },
        ConfigKey::IncludeThinking => {
            match parse_bool(value) {
                Ok(v) => {
                    c.include_thinking = v;
                },
                Err(e) => {
                    return Err(e);
                },
            }
        },
        ConfigKey::IncludeToolUse => {
            match parse_bool(value) {
                Ok(v) => {
                    c.include_tool_use = v;
                },
                Err(e) => {
                    return Err(e);
                },
            }
        },
        ConfigKey::IncludeTimestamps => {
            match parse_bool(value) {
                Ok(v) => {
                    c.include_timestamps = v;
                },
                Err(e) => {
                    return Err(e);
                },
            }
        },
        ConfigKey::PrettyJson => {
            match parse_bool(value) {
                Ok(v) => {
                    c.pretty_json = v;
                },
                Err(e) => {
                    return Err(e);
                },
            }
        },
        ConfigKey::ThemeName => {
            c.theme_name = value.to_owned();
        },
        ConfigKey::Color => {
            match parse_bool(value) {
                Ok(v) => {
                    c.color = v;
                },
                Err(e) => {
                    return Err(e);
                },
            }
        },
        ConfigKey::Unicode => {
            match parse_bool(value) {
                Ok(v) => {
                    c.unicode = v;
                },
                Err(e) => {
                    return Err(e);
                },
            }
        },
        ConfigKey::FullIds => {
            match parse_bool(value) {
                Ok(v) => {
                    c.full_ids = v;
                },
                Err(e) => {
                    return Err(e);
                },
            }
        },
        ConfigKey::ShowSizes => {
            match parse_bool(value) {
                Ok(v) => {
                    c.show_sizes = v;
                },
                Err(e) => {
                    return Err(e);
                },
            }
        },
        ConfigKey::TruncateAt => {
            match parse_usize(value) {
                Ok(v) => {
                    c.truncate_at = v;
                },
                Err(e) => {
                    return Err(e);
                },
            }
        },
        ConfigKey::ContextLines => {
            match parse_usize(value) {
                Ok(v) => {
                    c.context_lines = v;
                },
                Err(e) => {
                    return Err(e);
                },
            }
        },
        ConfigKey::CacheEnabled => {
            match parse_bool(value) {
                Ok(v) => {
                    c.cache_enabled = v;
                },
                Err(e) => {
                    return Err(e);
                },
            }
        },
        ConfigKey::CacheDirectory => {
            c.cache_directory = Some(value.to_owned());
        },
        ConfigKey::CacheMaxSize => {
            match parse_u64(value) {
                Ok(v) => {
                    c.cache_max_size = v;
                },
                Err(e) => {
                    return Err(e);
                },
            }
        },
        ConfigKey::CacheTtl => {
            match parse_u64(value) {
                Ok(v) => {
                    c.cache_ttl_seconds = v;
                },
                Err(e) => {
                    return Err(e);
                },
            }
        },
        ConfigKey::DailyLimit => {
            match parse_limit(value, number) {
                Ok(v) => {
                    c.daily_limit = v;
                },
                Err(e) => {
                    return Err(e);
                },
            }
        },
        ConfigKey::WeeklyLimit => {
            match parse_limit(value, number) {
                Ok(v) => {
                    c.weekly_limit = v;
                },
                Err(e) => {
                    return Err(e);
                },
            }
        },
        ConfigKey::MonthlyLimit => {
            match parse_limit(value, number) {
                Ok(v) => {
                    c.monthly_limit = v;
                },
                Err(e) => {
                    return Err(e);
                },
            }
        },
        ConfigKey::WarningThreshold => {
            match parse_share(value, number) {
                Ok(v) => {
                    c.warning_threshold = v;
                },
                Err(e) => {
                    return Err(e);
                },
            }
        },
        ConfigKey::ShowInStats => {
            match parse_bool(value) {
                Ok(v) => {
                    c.show_in_stats = v;
                },
                Err(e) => {
                    return Err(e);
                },
            }
        },
    }
    Ok(())
}

/// Changes a setting, and no other. Nothing changes where the name or the value cannot be used. `number` is what the value is as a
/// decimal number, where it is one.
pub fn set_config_value(
    c: &mut Config,
    key: &str,
    value: &str,
    number: &Option<DecimalTexts>,
) -> (r: Result<String, SnatchError>)
    ensures
        match key_of(key@) {
            None => r matches Err(e) && e@ == unknown_key(key@) && *final(c) == *old(c),
            Some(k) => match changed(old(c)@, k, value@, *number) {
                Ok(after) => final(c)@ == after && (r matches Ok(line) && line@ == "Set "@ + key@
                    + " = "@ + value@),
                Err(error) => r matches Err(e) && e@ == error && *final(c) == *old(c),
            },
        },
{
    match parse_key(key) {
        None => Err(key_error(key)),
        Some(k) => match change(c, k, value, number) {
            Ok(()) => Ok(text::cat4("Set ", key, " = ", value)),
            Err(e) => Err(e),
        },
    }
}

// ---------------------------------------------------------------------------
// The file
// ---------------------------------------------------------------------------

/// What is done with the file of the settings, and what is said.
#[derive(Debug, Clone, PartialEq, Eq)]
pub struct FilePlan {
    /// Whether it is written with the usual settings.
    pub write_defaults: bool,
    /// What is said.
    pub lines: Vec<String>,
}

/// What is said when the file is to be made.
pub open spec fn init_lines(exists: bool, path: Seq<char>) -> Seq<Seq<char>> {
    if exists {
        seq![
            "Configuration file already exists at: "@ + path,
            "Use 'snatch config reset' to reset to defaults."@,
        ]
    } else {
        seq!["Created configuration file at: "@ + path]
    }
}

/// What is said when the file is to be made anew.
pub open spec fn reset_lines(exists: bool, path: Seq<char>) -> Seq<Seq<char>> {
    if exists {
        seq!["Reset configuration to defaults at: "@ + path]
    } else {
        seq!["No configuration file exists. Use 'snatch config init' to create one."@]
    }
}

/// The file is made where there is none.
pub fn init_config(exists: bool, path: &str) -> (r: FilePlan)
    ensures
        r.write_defaults == !exists,
        views(r.lines@) == init_lines(exists, path@),
{
    let mut lines: Vec<String> = Vec::new();
    if exists {
        text::say2(&mut lines, "Configuration file already exists at: ", path);
        text::say(&mut lines, "Use 'snatch config reset' to reset to defaults.");
    } else {
        text::say2(&mut lines, "Created configuration file at: ", path);
    }
    proof {
        assert(views(lines@) =~= init_lines(exists, path@));
    }
    FilePlan { write_defaults: !exists, lines }
}

/// The file is made anew where there is one.
pub fn reset_config(exists: bool, path: &str) -> (r: FilePlan)
    ensures
        r.write_defaults == exists,
        views(r.lines@) == reset_lines(exists, path@),
{
    let mut lines: Vec<String> = Vec::new();
    if exists {
        text::say2(&mut lines, "Reset configuration to defaults at: ", path);
    } else {
        text::say(
            &mut lines,
            "No configuration file exists. Use 'snatch config init' to create one.",
        );
    }
    proof {
        assert(views(lines@) =~= reset_lines(exists, path@));
    }
    FilePlan { write_defaults: exists, lines }
}

// ---------------------------------------------------------------------------
// All settings
// ---------------------------------------------------------------------------

/// A number of units of time, in words; nothing for nought.
pub open spec fn unit_words(n: int, one: Seq<char>, many: Seq<char>) -> Seq<Seq<char>> {
    if n <= 0 {
        Seq::empty()
    } else if n == 1 {
        seq![one]
    } else {
        seq![decimal(n as nat) + many]
    }
}

/// A span of time, in words.
pub open spec fn duration_words(seconds: u64) -> Seq<char> {
    if seconds == 0 {
        "0 seconds"@
    } else {
        joined(
            unit_words(seconds as int / 3600, "1 hour"@, " hours"@) + unit_words(
                (seconds as int % 3600) / 60,
                "1 minute"@,
                " minutes"@,
            ) + unit_words(seconds as int % 60, "1 second"@, " seconds"@),
            " "@,
        )
    }
}

fn say_unit(out: &mut Vec<String>, n: u64, one: &str, many: &str)
    ensures
        views(final(out)@) == views(old(out)@) + unit_words(n as int, one@, many@),
{
    let ghost start = views(out@);
    if n > 0 {
        if n == 1 {
            text::say(out, one);
        } else {
            let digits = text::number(n);
            text::say2(out, digits.as_str(), many);
        }
    }
    proof {
        assert(views(out@) =~= start + unit_words(n as int, one@, many@));
    }
}

/// A span of time, in words.
pub fn format_duration_human(seconds: u64) -> (r: String)
    ensures
        r@ == duration_words(seconds),
{
    if seconds == 0 {
        return "0 seconds".to_owned();
    }
    let mut parts: Vec<String> = Vec::new();
    say_unit(&mut parts, seconds / 3600, "1 hour", " hours");
    proof {
        assert(views(parts@) =~= unit_words(seconds as int / 3600, "1 hour"@, " hours"@));
    }
    say_unit(&mut parts, (seconds % 3600) / 60, "1 minute", " minutes");
    say_unit(&mut parts, seconds % 60, "1 second", " seconds");
    text::join(&parts, " ")
}

/// The line of a limit.
pub open spec fn limit_line(label: Seq<char>, limit: Option<Amount>, per: Seq<char>) -> Seq<char> {
    match limit {
        Some(v) => label + v.two_places@ + " # $"@ + v.two_places@ + per,
        None => label + "# not set"@,
    }
}

/// The lines of the form of output and the theme.
pub open spec fn look_lines(c: Config) -> Seq<Seq<char>> {
    seq![
        "Snatch Configuration"@,
        "===================="@,
        ""@,
        "[default_format]"@,
        "  format = \""@ + c.format@ + "\""@,
        "  include_thinking = "@ + truth(c.include_thinking),
        "  include_tool_use = "@ + truth(c.include_tool_use),
        "  include_timestamps = "@ + truth(c.include_timestamps),
        "  pretty_json = "@ + truth(c.pretty_json),
        ""@,
        "[theme]"@,
        "  name = \""@ + c.theme_name@ + "\""@,
        "  color = "@ + truth(c.color),
        "  unicode = "@ + truth(c.unicode),
        ""@,
    ]
}

/// The lines of the display and the cache.
pub open spec fn store_lines(c: Config, size_shown: Seq<char>) -> Seq<Seq<char>> {
    seq![
        "[display]"@,
        "  full_ids = "@ + truth(c.full_ids),
        "  show_sizes = "@ + truth(c.show_sizes),
        "  truncate_at = "@ + decimal(c.truncate_at as nat),
        "  context_lines = "@ + decimal(c.context_lines as nat),
        ""@,
        "[cache]"@,
        "  enabled = "@ + truth(c.cache_enabled),
        match c.cache_directory {
            Some(d) => "  directory = \""@ + d@ + "\""@,
            None => "  directory = # not set (auto-detect)"@,
        },
        "  max_size = "@ + size_shown + " ("@ + decimal(c.cache_max_size as nat) + " bytes)"@,
        "  ttl_seconds = "@ + duration_words(c.cache_ttl_seconds) + " ("@ + decimal(
            c.cache_ttl_seconds as nat,
        ) + " seconds)"@,
        ""@,
    ]
}

/// The lines of the limits.
pub open spec fn budget_lines(c: Config) -> Seq<Seq<char>> {
    seq![
        "[budget]"@,
        limit_line("  daily_limit = "@, c.daily_limit, " per day"@),
        limit_line("  weekly_limit = "@, c.weekly_limit, " per week"@),
        limit_line("  monthly_limit = "@, c.monthly_limit, " per month"@),
        "  warning_threshold = "@ + c.warning_threshold.percent@ + "%"@,
        "  show_in_stats = "@ + truth(c.show_in_stats),
    ]
}

fn say_bool(out: &mut Vec<String>, label: &str, b: bool)
    ensures
        views(final(out)@) == views(old(out)@).push(label@ + truth(b)),
{
    let word = write_truth(b);
    text::say2(out, label, word.as_str());
}

fn write_look(c: &Config) -> (r: Vec<String>)
    ensures
        views(r@) == look_lines(*c),
{
    let mut out: Vec<String> = Vec::new();
    text::say(&mut out, "Snatch Configuration");
    text::say(&mut out, "====================");
    text::say(&mut out, "");
    text::say(&mut out, "[default_format]");
    text::say3(&mut out, "  format = \"", c.format.as_str(), "\"");
    say_bool(&mut out, "  include_thinking = ", c.include_thinking);
    say_bool(&mut out, "  include_tool_use = ", c.include_tool_use);
    say_bool(&mut out, "  include_timestamps = ", c.include_timestamps);
    say_bool(&mut out, "  pretty_json = ", c.pretty_json);
    text::say(&mut out, "");
    text::say(&mut out, "[theme]");
    text::say3(&mut out, "  name = \"", c.theme_name.as_str(), "\"");
    say_bool(&mut out, "  color = ", c.color);
    say_bool(&mut out, "  unicode = ", c.unicode);
    text::say(&mut out, "");
    proof {
        assert(views(out@) =~= look_lines(*c));
    }
    out
}

fn write_store(c: &Config, size_shown: &str) -> (r: Vec<String>)
    ensures
        views(r@) == store_lines(*c, size_shown@),
{
    let mut out: Vec<String> = Vec::new();
    let cut = text::size(c.truncate_at);
    let context = text::size(c.context_lines);
    let size = text::number(c.cache_max_size);
    let seconds = text::number(c.cache_ttl_seconds);
    let span = format_duration_human(c.cache_ttl_seconds);
    text::say(&mut out, "[display]");
    say_bool(&mut out, "  full_ids = ", c.full_ids);
    say_bool(&mut out, "  show_sizes = ", c.show_sizes);
    text::say2(&mut out, "  truncate_at = ", cut.as_str());
    text::say2(&mut out, "  context_lines = ", context.as_str());
    text::say(&mut out, "");
    text::say(&mut out, "[cache]");
    say_bool(&mut out, "  enabled = ", c.cache_enabled);
    match &c.cache_directory {
        Some(d) => text::say3(&mut out, "  directory = \"", d.as_str(), "\""),
        None => text::say(&mut out, "  directory = # not set (auto-detect)"),
    }
    text::say5(&mut out, "  max_size = ", size_shown, " (", size.as_str(), " bytes)");
    text::say5(
        &mut out,
        "  ttl_seconds = ",
        span.as_str(),
        " (",
        seconds.as_str(),
        " seconds)",
    );
    text::say(&mut out, "");
    proof {
        assert(views(out@) =~= store_lines(*c, size_shown@));
    }
    out
}

fn say_limit(out: &mut Vec<String>, label: &str, limit: &Option<Amount>, per: &str)
    ensures
        views(final(out)@) == views(old(out)@).push(limit_line(label@, *limit, per@)),
{
    match limit {
        Some(v) => text::say5(
            out,
            label,
            v.two_places.as_str(),
            " # $",
            v.two_places.as_str(),
            per,
        ),
        None => text::say2(out, label, "# not set"),
    }
}

fn write_budget(c: &Config) -> (r: Vec<String>)
    ensures
        views(r@) == budget_lines(*c),
{
    let mut out: Vec<String> = Vec::new();
    text::say(&mut out, "[budget]");
    say_limit(&mut out, "  daily_limit = ", &c.daily_limit, " per day");
    say_limit(&mut out, "  weekly_limit = ", &c.weekly_limit, " per week");
    say_limit(&mut out, "  monthly_limit = ", &c.monthly_limit, " per month");
    text::say3(&mut out, "  warning_threshold = ", c.warning_threshold.percent.as_str(), "%");
    say_bool(&mut out, "  show_in_stats = ", c.show_in_stats);
    proof {
        assert(views(out@) =~= budget_lines(*c));
    }
    out
}

/// All settings. `size_shown` is the size of the cache, as it is shown.
pub fn show_config(c: &Config, size_shown: &str) -> (r: Vec<String>)
    ensures
        views(r@) == look_lines(*c) + store_lines(*c, size_shown@) + budget_lines(*c),
{
    let mut out = write_look(c);
    let store = write_store(c, size_shown);
    text::say_more(&mut out, store);
    let budget = write_budget(c);
    text::say_more(&mut out, budget);
    out
}

// ---------------------------------------------------------------------------
// As JSON
// ---------------------------------------------------------------------------

/// A limit as a JSON value; `null` where it is not set.
pub open spec fn limit_json(limit: Option<AmountView>) -> JsonView {
    match limit {
        Some(a) => JsonView::Number(a.exact),
        None => JsonView::Null,
    }
}

/// The form of output as a JSON object.
pub open spec fn format_section(c: ConfigView) -> JsonView {
    JsonView::Object(
        seq![
            ("format"@, JsonView::Text(c.format)),
            ("include_thinking"@, JsonView::Bool(c.include_thinking)),
            ("include_tool_use"@, JsonView::Bool(c.include_tool_use)),
            ("include_timestamps"@, JsonView::Bool(c.include_timestamps)),
            ("pretty_json"@, JsonView::Bool(c.pretty_json)),
        ],
    )
}

/// The theme as a JSON object.
pub open spec fn theme_section(c: ConfigView) -> JsonView {
    JsonView::Object(
        seq![
            ("name"@, JsonView::Text(c.theme_name)),
            ("color"@, JsonView::Bool(c.color)),
            ("unicode"@, JsonView::Bool(c.unicode)),
        ],
    )
}

/// The display as a JSON object.
pub open spec fn display_section(c: ConfigView) -> JsonView {
    JsonView::Object(
        seq![
            ("full_ids"@, JsonView::Bool(c.full_ids)),
            ("show_sizes"@, JsonView::Bool(c.show_sizes)),
            ("truncate_at"@, number_json(c.truncate_at as nat)),
            ("context_lines"@, number_json(c.context_lines as nat)),
        ],
    )
}

/// The cache as a JSON object.
pub open spec fn cache_section(c: ConfigView) -> JsonView {
    JsonView::Object(
        seq![
            ("enabled"@, JsonView::Bool(c.cache_enabled)),
            (
                "directory"@,
                match c.cache_directory {
                    Some(d) => JsonView::Text(d),
                    None => JsonView::Null,
                },
            ),
            ("max_size"@, number_json(c.cache_max_size as nat)),
            ("ttl_seconds"@, number_json(c.cache_ttl_seconds as nat)),
        ],
    )
}

/// The limits as a JSON object.
pub open spec fn budget_section(c: ConfigView) -> JsonView {
    JsonView::Object(
        seq![
            ("daily_limit"@, limit_json(c.daily_limit)),
            ("weekly_limit"@, limit_json(c.weekly_limit)),
            ("monthly_limit"@, limit_json(c.monthly_limit)),
            ("warning_threshold"@, JsonView::Number(c.warning_threshold.exact)),
            ("show_in_stats"@, JsonView::Bool(c.show_in_stats)),
        ],
    )
}

/// All settings as a JSON object: one section after another, each setting in its section under the
/// last part of its name.
pub open spec fn config_view_json(c: ConfigView) -> JsonView {
    JsonView::Object(
        seq![
            ("default_format"@, format_section(c)),
            ("theme"@, theme_section(c)),
            ("display"@, display_section(c)),
            ("cache"@, cache_section(c)),
            ("budget"@, budget_section(c)),
        ],
    )
}

fn put_limit(fields: &mut Vec<(String, Json)>, name: &str, limit: &Option<Amount>)
    ensures
        fields_view(final(fields)@) == fields_view(old(fields)@).push(
            (name@, limit_json(limit_view(*limit))),
        ),
{
    match limit {
        Some(a) => json::put(fields, name, Json::Number(a.exact.clone())),
        None => json::put(fields, name, Json::Null),
    }
}

fn look_sections(c: &Config) -> (r: (Json, Json, Json))
    ensures
        r.0@ == format_section(c@),
        r.1@ == theme_section(c@),
        r.2@ == display_section(c@),
{
    let mut format: Vec<(String, Json)> = Vec::new();
    json::put(&mut format, "format", json::of_text(c.format.as_str()));
    json::put(&mut format, "include_thinking", Json::Bool(c.include_thinking));
    json::put(&mut format, "include_tool_use", Json::Bool(c.include_tool_use));
    json::put(&mut format, "include_timestamps", Json::Bool(c.include_timestamps));
    json::put(&mut format, "pretty_json", Json::Bool(c.pretty_json));
    proof {
        assert(fields_view(format@) =~= format_section(c@)->Object_0);
    }
    let mut theme: Vec<(String, Json)> = Vec::new();
    json::put(&mut theme, "name", json::of_text(c.theme_name.as_str()));
    json::put(&mut theme, "color", Json::Bool(c.color));
    json::put(&mut theme, "unicode", Json::Bool(c.unicode));
    proof {
        assert(fields_view(theme@) =~= theme_section(c@)->Object_0);
    }
    let mut display: Vec<(String, Json)> = Vec::new();
    json::put(&mut display, "full_ids", Json::Bool(c.full_ids));
    json::put(&mut display, "show_sizes", Json::Bool(c.show_sizes));
    json::put(&mut display, "truncate_at", json::of_number(c.truncate_at as u64));
    json::put(&mut display, "context_lines", json::of_number(c.context_lines as u64));
    proof {
        assert(fields_view(display@) =~= display_section(c@)->Object_0);
    }
    (Json::Object(format), Json::Object(theme), Json::Object(display))
}

fn store_sections(c: &Config) -> (r: (Json, Json))
    ensures
        r.0@ == cache_section(c@),
        r.1@ == budget_section(c@),
{
    let mut cache: Vec<(String, Json)> = Vec::new();
    json::put(&mut cache, "enabled", Json::Bool(c.cache_enabled));
    match &c.cache_directory {
        Some(d) => json::put(&mut cache, "directory", json::of_text(d.as_str())),
        None => json::put(&mut cache, "directory", Json::Null),
    }
    json::put(&mut cache, "max_size", json::of_number(c.cache_max_size));
    json::put(&mut cache, "ttl_seconds", json::of_number(c.cache_ttl_seconds));
    proof {
        assert(fields_view(cache@) =~= cache_section(c@)->Object_0);
    }
    let mut budget: Vec<(String, Json)> = Vec::new();
    put_limit(&mut budget, "daily_limit", &c.daily_limit);
    put_limit(&mut budget, "weekly_limit", &c.weekly_limit);
    put_limit(&mut budget, "monthly_limit", &c.monthly_limit);
    json::put(
        &mut budget,
        "warning_threshold",
        Json::Number(c.warning_threshold.exact.clone()),
    );
    json::put(&mut budget, "show_in_stats", Json::Bool(c.show_in_stats));
    proof {
        assert(fields_view(budget@) =~= budget_section(c@)->Object_0);
    }
    (Json::Object(cache), Json::Object(budget))
}

/// All settings as a JSON object.
pub fn config_json(c: &Config) -> (r: Json)
    ensures
        r@ == config_view_json(c@),
{
    let (format, theme, display) = look_sections(c);
    let (cache, budget) = store_sections(c);
    let mut fields: Vec<(String, Json)> = Vec::new();
    json::put(&mut fields, "default_format", format);
    json::put(&mut fields, "theme", theme);
    json::put(&mut fields, "display", display);
    json::put(&mut fields, "cache", cache);
    json::put(&mut fields, "budget", budget);
    proof {
        assert(fields_view(fields@) =~= config_view_json(c@)->Object_0);
    }
    Json::Object(fields)
}

// ---------------------------------------------------------------------------
// What is done
// ---------------------------------------------------------------------------

/// What is known of the file of the settings.
#[derive(Debug, Clone, PartialEq, Eq)]
pub struct ConfigFile {
    /// Its path.
    pub path: String,
    /// Whether it is there.
    pub exists: bool,
    /// The size of the cache, as it is shown.
    pub size_shown: String,
}

/// What comes of an action: what is printed, and what is written.
#[derive(Debug)]
pub struct ConfigOutcome {
    /// What is printed; nothing where a value is.
    pub lines: Vec<String>,
    /// A JSON value that is printed over several lines.
    pub value: Option<Json>,
    /// The settings are written as they are now.
    pub save: bool,
    /// The usual settings are written.
    pub save_defaults: bool,
}

/// The value of a setting as it is printed: as it is shown, or under its name as JSON.
pub open spec fn printed_value(key: Seq<char>, value: Seq<char>, as_json: bool) -> Seq<char> {
    if as_json {
        rendered(JsonView::Object(seq![(key, JsonView::Text(value))]))
    } else {
        value
    }
}

fn print_value(key: &str, value: &str, as_json: bool) -> (r: String)
    ensures
        r@ == printed_value(key@, value@, as_json),
{
    if as_json {
        let mut fields: Vec<(String, Json)> = Vec::new();
        json::put(&mut fields, key, json::of_text(value));
        proof {
            assert(fields_view(fields@) =~= seq![(key@, JsonView::Text(value@))]);
        }
        json::render(&Json::Object(fields))
    } else {
        value.to_owned()
    }
}

/// Does what is asked for with the settings.
pub fn run(
    c: &mut Config,
    action: &ConfigAction,
    file: &ConfigFile,
    number: &Option<DecimalTexts>,
    as_json: bool,
) -> (r: Result<ConfigOutcome, SnatchError>)
    ensures
        match *action {
            ConfigAction::Show => *final(c) == *old(c) && (r matches Ok(o) && !o.save
                && !o.save_defaults && (if as_json {
                o.lines@.len() == 0 && (o.value matches Some(j) && j@ == config_view_json(
                    old(c)@,
                ))
            } else {
                o.value is None && views(o.lines@) == look_lines(*old(c)) + store_lines(
                    *old(c),
                    file.size_shown@,
                ) + budget_lines(*old(c))
            })),
            ConfigAction::Get { key } => *final(c) == *old(c) && (match key_of(key@) {
                Some(k) => r matches Ok(o) && !o.save && !o.save_defaults && o.value is None
                    && views(o.lines@) == seq![
                    printed_value(key@, value_of(old(c)@, k), as_json),
                ],
                None => r matches Err(e) && e@ == unknown_key(key@),
            }),
            ConfigAction::Change { key, value } => match key_of(key@) {
                None => r matches Err(e) && e@ == unknown_key(key@) && *final(c) == *old(c),
                Some(k) => match changed(old(c)@, k, value@, *number) {
                    Ok(after) => final(c)@ == after && (r matches Ok(o) && o.save
                        && !o.save_defaults && o.value is None && views(o.lines@) == seq![
                        "Set "@ + key@ + " = "@ + value@,
                    ]),
                    Err(error) => r matches Err(e) && e@ == error && *final(c) == *old(c),
                },
            },
            ConfigAction::Path => *final(c) == *old(c) && (r matches Ok(o) && !o.save
                && !o.save_defaults && o.value is None && views(o.lines@) == seq![file.path@]),
            ConfigAction::Init => *final(c) == *old(c) && (r matches Ok(o) && !o.save
                && o.save_defaults == !file.exists && o.value is None && views(o.lines@) == init_lines(
                file.exists,
                file.path@,
            )),
            ConfigAction::Reset => *final(c) == *old(c) && (r matches Ok(o) && !o.save
                && o.save_defaults == file.exists && o.value is None && views(o.lines@) == reset_lines(
                file.exists,
                file.path@,
            )),
        },
{
    match action {
        ConfigAction::Show => if as_json {
            Ok(
                ConfigOutcome {
                    lines: Vec::new(),
                    value: Some(config_json(c)),
                    save: false,
                    save_defaults: false,
                },
            )
        } else {
            let lines = show_config(c, file.size_shown.as_str());
            Ok(ConfigOutcome { lines, value: None, save: false, save_defaults: false })
        },
        ConfigAction::Get { key } => match get_config_value(c, key.as_str()) {
            Ok(value) => {
                let mut lines: Vec<String> = Vec::new();
                let line = print_value(key.as_str(), value.as_str(), as_json);
                text::say(&mut lines, line.as_str());
                proof {
                    assert(views(lines@) =~= seq![line@]);
                }
                Ok(ConfigOutcome { lines, value: None, save: false, save_defaults: false })
            },
            Err(e) => Err(e),
        },
        ConfigAction::Change { key, value } => match set_config_value(
            c,
            key.as_str(),
            value.as_str(),
            number,
        ) {
            Ok(line) => {
                let mut lines: Vec<String> = Vec::new();
                text::say(&mut lines, line.as_str());
                proof {
                    assert(views(lines@) =~= seq![line@]);
                }
                Ok(ConfigOutcome { lines, value: None, save: true, save_defaults: false })
            },
            Err(e) => Err(e),
        },
        ConfigAction::Path => {
            let mut lines: Vec<String> = Vec::new();
            text::say(&mut lines, file.path.as_str());
            proof {
                assert(views(lines@) =~= seq![file.path@]);
            }
            Ok(ConfigOutcome { lines, value: None, save: false, save_defaults: false })
        },
        ConfigAction::Init => {
            let plan = init_config(file.exists, file.path.as_str());
            Ok(
                ConfigOutcome {
                    lines: plan.lines,
                    value: None,
                    save: false,
                    save_defaults: plan.write_defaults,
                },
            )
        },
        ConfigAction::Reset => {
            let plan = reset_config(file.exists, file.path.as_str());
            Ok(
                ConfigOutcome {
                    lines: plan.lines,
                    value: None,
                    save: false,
                    save_defaults: plan.write_defaults,
                },
            )
        },
    }
}

// ---------------------------------------------------------------------------
// What settings take and show
// ---------------------------------------------------------------------------

proof fn lemma_truth_words()
    ensures
        forall|w: Seq<char>| #[trigger]
            truth_of(w) == Some(true) <==> w == "true"@ || w == "yes"@ || w == "1"@ || w == "on"@,
        forall|w: Seq<char>| #[trigger]
            truth_of(w) == Some(false) <==> w == "false"@ || w == "no"@ || w == "0"@ || w == "off"@,
{
    reveal_strlit("true");
    reveal_strlit("yes");
    reveal_strlit("1");
    reveal_strlit("on");
    reveal_strlit("false");
    reveal_strlit("no");
    reveal_strlit("0");
    reveal_strlit("off");
    assert("true"@.len() == 4 && "yes"@.len() == 3 && "1"@.len() == 1 && "on"@.len() == 2
        && "false"@.len() == 5 && "no"@.len() == 2 && "0"@.len() == 1 && "off"@.len() == 3);
    assert("yes"@[0] == 'y' && "off"@[0] == 'o' && "on"@[0] == 'o' && "no"@[0] == 'n' && "1"@[0] == '1'
        && "0"@[0] == '0');
}

/// A setting that can be on or off takes the words for either, whatever the case of the letters, and
/// then shows it; any other word is refused.
pub proof fn switches_take_words(
    c: ConfigView,
    key: ConfigKey,
    value: Seq<char>,
    number: Option<DecimalTexts>,
)
    requires
        key is IncludeThinking || key is IncludeToolUse || key is IncludeTimestamps || key is PrettyJson || key is Color || key is Unicode || key is FullIds || key is ShowSizes || key is CacheEnabled || key is ShowInStats,
    ensures
        ({
            let w = lowercase(value);
            let r = changed(c, key, value, number);
            let on = w == "true"@ || w == "yes"@ || w == "1"@ || w == "on"@;
            let off = w == "false"@ || w == "no"@ || w == "0"@ || w == "off"@;
            &&& r is Ok <==> on || off
            &&& on ==> value_of(r->Ok_0, key) == "true"@
            &&& off ==> value_of(r->Ok_0, key) == "false"@
        }),
{
    lemma_truth_words();
    assert(truth_of(lowercase(value)) == Some(true) || truth_of(lowercase(value)) == Some(false)
        || truth_of(lowercase(value)) is None);
}

/// A setting that is a text takes any text and then shows it.
pub proof fn texts_are_taken_as_they_are(
    c: ConfigView,
    key: ConfigKey,
    value: Seq<char>,
    number: Option<DecimalTexts>,
)
    requires
        key is FormatName || key is ThemeName || key is CacheDirectory,
    ensures
        changed(c, key, value, number) is Ok,
        value_of(changed(c, key, value, number)->Ok_0, key) == value,
{
}

/// A setting that is a whole number takes a text that spells one that it can hold, and then shows it
/// in plain digits; any other text is refused.
pub proof fn numbers_are_read_and_shown(
    c: ConfigView,
    key: ConfigKey,
    value: Seq<char>,
    number: Option<DecimalTexts>,
)
    requires
        key is TruncateAt || key is ContextLines || key is CacheMaxSize || key is CacheTtl,
    ensures
        ({
            let most = if key is TruncateAt || key is ContextLines {
                usize::MAX as nat
            } else {
                u64::MAX as nat
            };
            let r = changed(c, key, value, number);
            &&& r is Ok <==> number_of(value, most) is Some
            &&& r is Ok ==> value_of(r->Ok_0, key) == decimal(number_of(value, most)->0)
        }),
{
}

/// A limit takes a number and then shows it with two places; `none`, `unset`, `clear`, `0` and
/// nothing take the limit away, whatever the case of the letters.
pub proof fn limits_are_set_and_taken_away(
    c: ConfigView,
    key: ConfigKey,
    value: Seq<char>,
    number: Option<DecimalTexts>,
)
    requires
        key is DailyLimit || key is WeeklyLimit || key is MonthlyLimit,
    ensures
        ({
            let w = lowercase(value);
            let r = changed(c, key, value, number);
            if w == "none"@ || w == "unset"@ || w == "clear"@ || w == "0"@ || w == ""@ {
                r is Ok && value_of(r->Ok_0, key) == "(not set)"@
            } else {
                &&& r is Ok <==> number is Some
                &&& r is Ok ==> value_of(r->Ok_0, key) == number->0.amount@.two_places
            }
        }),
{
}

/// A span of time is told in hours, minutes and seconds, each where there is any of it and one of it
/// in the singular.
pub proof fn spans_are_told_in_units(seconds: u64, h: nat, m: nat, s: nat)
    requires
        m < 60,
        s < 60,
        seconds == 3600 * h + 60 * m + s,
        seconds > 0,
    ensures
        duration_words(seconds) == joined(
            (if h == 0 {
                Seq::empty()
            } else if h == 1 {
                seq!["1 hour"@]
            } else {
                seq![decimal(h) + " hours"@]
            }) + (if m == 0 {
                Seq::empty()
            } else if m == 1 {
                seq!["1 minute"@]
            } else {
                seq![decimal(m) + " minutes"@]
            }) + (if s == 0 {
                Seq::empty()
            } else if s == 1 {
                seq!["1 second"@]
            } else {
                seq![decimal(s) + " seconds"@]
            }),
            " "@,
        ),
{
    let n = seconds as int;
    assert(n / 3600 == h && n % 3600 == 60 * m + s) by (nonlinear_arith)
        requires
            n == 3600 * h + 60 * m + s,
            m < 60,
            s < 60,
    ;
    assert((60 * m + s) / 60 == m) by (nonlinear_arith)
        requires
            s < 60,
    ;
    assert(n % 60 == s) by (nonlinear_arith)
        requires
            n == 3600 * h + 60 * m + s,
            s < 60,
    ;
    assert(unit_words(n / 3600, "1 hour"@, " hours"@) == (if h == 0 {
        Seq::empty()
    } else if h == 1 {
        seq!["1 hour"@]
    } else {
        seq![decimal(h) + " hours"@]
    }));
    assert(unit_words((n % 3600) / 60, "1 minute"@, " minutes"@) == (if m == 0 {
        Seq::empty()
    } else if m == 1 {
        seq!["1 minute"@]
    } else {
        seq![decimal(m) + " minutes"@]
    }));
    assert(unit_words(n % 60, "1 second"@, " seconds"@) == (if s == 0 {
        Seq::empty()
    } else if s == 1 {
        seq!["1 second"@]
    } else {
        seq![decimal(s) + " seconds"@]
    }));
}

// ---------------------------------------------------------------------------
// What calls hand back
// ---------------------------------------------------------------------------

/// A setting is shown under its name: switches as true or false, numbers in digits, texts as they
/// are, and what was never set says so. There are no settings but these.
#[verifier::rlimit(100)]
pub proof fn settings_are_shown_by_name(c: Config, key: &str, r: Result<String, SnatchError>)
    ensures
        call_ensures(get_config_value, (&c, key), r) && r is Ok ==> {
            let shown = r->Ok_0@;
            &&& key@ == "default_format.format"@ ==> shown == c@.format
            &&& key@ == "default_format.include_thinking"@ ==> shown == (if c@.include_thinking {
                "true"@
            } else {
                "false"@
            })
            &&& key@ == "default_format.include_tool_use"@ ==> shown == (if c@.include_tool_use {
                "true"@
            } else {
                "false"@
            })
            &&& key@ == "default_format.include_timestamps"@ ==> shown == (if c@.include_timestamps {
                "true"@
            } else {
                "false"@
            })
            &&& key@ == "default_format.pretty_json"@ ==> shown == (if c@.pretty_json {
                "true"@
            } else {
                "false"@
            })
            &&& key@ == "theme.name"@ ==> shown == c@.theme_name
            &&& key@ == "theme.color"@ ==> shown == (if c@.color {
                "true"@
            } else {
                "false"@
            })
            &&& key@ == "theme.unicode"@ ==> shown == (if c@.unicode {
                "true"@
            } else {
                "false"@
            })
            &&& key@ == "display.full_ids"@ ==> shown == (if c@.full_ids {
                "true"@
            } else {
                "false"@
            })
            &&& key@ == "display.show_sizes"@ ==> shown == (if c@.show_sizes {
                "true"@
            } else {
                "false"@
            })
            &&& key@ == "display.truncate_at"@ ==> shown == decimal(c@.truncate_at as nat)
            &&& key@ == "display.context_lines"@ ==> shown == decimal(c@.context_lines as nat)
            &&& key@ == "cache.enabled"@ ==> shown == (if c@.cache_enabled {
                "true"@
            } else {
                "false"@
            })
            &&& key@ == "cache.max_size"@ ==> shown == decimal(c@.cache_max_size as nat)
            &&& key@ == "cache.ttl_seconds"@ ==> shown == decimal(c@.cache_ttl_seconds as nat)
            &&& key@ == "budget.warning_threshold"@ ==> shown == c@.warning_threshold.percent
            &&& key@ == "budget.show_in_stats"@ ==> shown == (if c@.show_in_stats {
                "true"@
            } else {
                "false"@
            })
            &&& key@ == "cache.directory"@ ==> (c@.cache_directory matches Some(d) ==> shown == d)
            &&& key@ == "cache.directory"@ && c@.cache_directory is None ==> shown
                == "(auto-detect)"@
            &&& key@ == "budget.daily_limit"@ ==> (c@.daily_limit matches Some(a) ==> shown
                == a.two_places)
            &&& key@ == "budget.daily_limit"@ && c@.daily_limit is None ==> shown
                == "(not set)"@
            &&& key@ == "budget.weekly_limit"@ ==> (c@.weekly_limit matches Some(a) ==> shown
                == a.two_places)
            &&& key@ == "budget.weekly_limit"@ && c@.weekly_limit is None ==> shown
                == "(not set)"@
            &&& key@ == "budget.monthly_limit"@ ==> (c@.monthly_limit matches Some(a) ==> shown
                == a.two_places)
            &&& key@ == "budget.monthly_limit"@ && c@.monthly_limit is None ==> shown
                == "(not set)"@
        },
        call_ensures(get_config_value, (&c, key), r) ==> (r is Ok <==> key@ == "default_format.format"@ || key@ == "default_format.include_thinking"@ || key@ == "default_format.include_tool_use"@ || key@ == "default_format.include_timestamps"@ || key@ == "default_format.pretty_json"@ || key@ == "theme.name"@ || key@ == "theme.color"@ || key@ == "theme.unicode"@ || key@ == "display.full_ids"@ || key@ == "display.show_sizes"@ || key@ == "display.truncate_at"@ || key@ == "display.context_lines"@ || key@ == "cache.enabled"@ || key@ == "cache.max_size"@ || key@ == "cache.ttl_seconds"@ || key@ == "budget.warning_threshold"@ || key@ == "budget.show_in_stats"@ || key@ == "cache.directory"@ || key@ == "budget.daily_limit"@ || key@ == "budget.weekly_limit"@ || key@ == "budget.monthly_limit"@),
{
    reveal_strlit("default_format.format");
    reveal_strlit("default_format.include_thinking");
    reveal_strlit("default_format.include_tool_use");
    reveal_strlit("default_format.include_timestamps");
    reveal_strlit("default_format.pretty_json");
    reveal_strlit("theme.name");
    reveal_strlit("theme.color");
    reveal_strlit("theme.unicode");
    reveal_strlit("display.full_ids");
    reveal_strlit("display.show_sizes");
    reveal_strlit("display.truncate_at");
    reveal_strlit("display.context_lines");
    reveal_strlit("cache.enabled");
    reveal_strlit("cache.max_size");
    reveal_strlit("cache.ttl_seconds");
    reveal_strlit("budget.warning_threshold");
    reveal_strlit("budget.show_in_stats");
    reveal_strlit("cache.directory");
    reveal_strlit("budget.daily_limit");
    reveal_strlit("budget.weekly_limit");
    reveal_strlit("budget.monthly_limit");
    assert("default_format.format"@[1] == 'e');
    assert("default_format.include_thinking"@[24] == 'h');
    assert("default_format.include_tool_use"@[24] == 'o');
    assert("theme.unicode"@[0] == 't');
    assert("display.show_sizes"@[0] == 'd');
    assert("display.truncate_at"@[0] == 'd');
    assert("display.context_lines"@[1] == 'i');
    assert("cache.enabled"@[0] == 'c');
    assert("budget.show_in_stats"@[7] == 's');
    assert("budget.daily_limit"@[0] == 'b');
    assert("budget.weekly_limit"@[0] == 'b');
    assert("budget.monthly_limit"@[7] == 'm');
}

} // verus!
