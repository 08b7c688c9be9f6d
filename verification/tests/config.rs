use snatch::commands::config::{
    format_duration_human, get_config_value, init_config, parse_bool, parse_u64, reset_config, run,
    set_config_value, show_config, Amount, Config, ConfigAction, ConfigFile, DecimalTexts, Share,
};
use snatch::error::SnatchError;
use snatch::json::render;

fn amount(exact: &str, two_places: &str) -> Amount {
    Amount { exact: exact.to_string(), two_places: two_places.to_string() }
}

fn share(exact: &str, percent: &str) -> Share {
    Share { exact: exact.to_string(), percent: percent.to_string() }
}

fn config() -> Config {
    Config {
        format: "text".to_string(),
        include_thinking: true,
        include_tool_use: true,
        include_timestamps: false,
        pretty_json: false,
        theme_name: "dark".to_string(),
        color: true,
        unicode: true,
        full_ids: false,
        show_sizes: true,
        truncate_at: 80,
        context_lines: 2,
        cache_enabled: true,
        cache_directory: None,
        cache_max_size: 1024,
        cache_ttl_seconds: 3661,
        daily_limit: None,
        weekly_limit: Some(amount("20.0", "20.00")),
        monthly_limit: None,
        warning_threshold: share("0.8", "80"),
        show_in_stats: true,
    }
}

fn message(error: SnatchError) -> String {
    match error {
        SnatchError::ConfigError { message } => message,
        other => panic!("{other:?}"),
    }
}

const KEYS: [&str; 21] = [
    "default_format.format",
    "default_format.include_thinking",
    "default_format.include_tool_use",
    "default_format.include_timestamps",
    "default_format.pretty_json",
    "theme.name",
    "theme.color",
    "theme.unicode",
    "display.full_ids",
    "display.show_sizes",
    "display.truncate_at",
    "display.context_lines",
    "cache.enabled",
    "cache.directory",
    "cache.max_size",
    "cache.ttl_seconds",
    "budget.daily_limit",
    "budget.weekly_limit",
    "budget.monthly_limit",
    "budget.warning_threshold",
    "budget.show_in_stats",
];

#[test]
fn a_change_shows_and_leaves_the_rest_alone() {
    let number =
        Some(DecimalTexts { amount: amount("1.0", "1.00"), share: share("1.0", "100") });
    for key in KEYS {
        let before = config();
        let mut after = config();
        assert_eq!(
            set_config_value(&mut after, key, "1", &number),
            Ok(format!("Set {key} = 1"))
        );
        for other in KEYS {
            if other != key {
                assert_eq!(get_config_value(&after, other), get_config_value(&before, other));
            }
        }
        let shown = get_config_value(&after, key).unwrap();
        assert!(["1", "true", "1.00", "100"].contains(&shown.as_str()), "{key} {shown}");
    }
}

#[test]
fn changes_are_kept_as_they_were_given() {
    let mut c = config();
    let number = Some(DecimalTexts {
        amount: amount("12.345", "12.35"),
        share: share("0.12345", "12"),
    });
    set_config_value(&mut c, "budget.daily_limit", "12.345", &number).unwrap();
    assert_eq!(c.daily_limit, Some(amount("12.345", "12.35")));
    assert_eq!(get_config_value(&c, "budget.daily_limit").unwrap(), "12.35");
    set_config_value(&mut c, "budget.warning_threshold", "12.345", &number).unwrap();
    assert_eq!(c.warning_threshold, share("0.12345", "12"));
    set_config_value(&mut c, "cache.directory", "(auto-detect)", &None).unwrap();
    assert_eq!(c.cache_directory, Some("(auto-detect)".to_string()));
    for word in ["none", "Unset", "clear", "0", ""] {
        c.daily_limit = Some(amount("1.0", "1.00"));
        set_config_value(&mut c, "budget.daily_limit", word, &number).unwrap();
        assert_eq!(c.daily_limit, None);
    }
}

#[test]
fn what_is_not_set_is_said_so() {
    let c = config();
    assert_eq!(get_config_value(&c, "cache.directory").unwrap(), "(auto-detect)");
    assert_eq!(get_config_value(&c, "budget.daily_limit").unwrap(), "(not set)");
    assert_eq!(
        message(get_config_value(&c, "nope").unwrap_err()),
        "Unknown configuration key: nope"
    );
}

#[test]
fn values_that_cannot_be_used_change_nothing() {
    let mut c = config();
    assert_eq!(
        message(set_config_value(&mut c, "theme.color", "maybe", &None).unwrap_err()),
        "Invalid boolean value: maybe. Use true/false."
    );
    assert_eq!(
        message(set_config_value(&mut c, "cache.max_size", "-1", &None).unwrap_err()),
        "Invalid number: -1"
    );
    assert_eq!(
        message(set_config_value(&mut c, "budget.daily_limit", "x", &None).unwrap_err()),
        "Invalid decimal number: x. Use a number like 100.00 or 'none' to clear."
    );
    assert_eq!(
        message(set_config_value(&mut c, "budget.warning_threshold", "x", &None).unwrap_err()),
        "Invalid decimal number: x"
    );
    assert_eq!(c, config());
    assert!(set_config_value(&mut c, "budget.weekly_limit", "NONE", &None).is_ok());
    assert_eq!(c.weekly_limit, None);
}

#[test]
fn words_for_yes_and_no() {
    for word in ["true", "YES", "1", "On"] {
        assert_eq!(parse_bool(word), Ok(true));
    }
    for word in ["false", "No", "0", "OFF"] {
        assert_eq!(parse_bool(word), Ok(false));
    }
    assert_eq!(parse_bool("true").ok(), "true".parse::<bool>().ok());
    assert_eq!(parse_u64("+7"), Ok("+7".parse::<u64>().unwrap()));
    assert!(parse_u64("18446744073709551616").is_err());
}

#[test]
fn spans_are_written_in_words() {
    assert_eq!(format_duration_human(0), "0 seconds");
    assert_eq!(format_duration_human(1), "1 second");
    assert_eq!(format_duration_human(3661), "1 hour 1 minute 1 second");
    assert_eq!(format_duration_human(7200 + 120), "2 hours 2 minutes");
}

#[test]
fn all_settings_are_shown() {
    let lines = show_config(&config(), "1.0 KB");
    assert_eq!(lines.len(), 33);
    assert!(lines.contains(&"  directory = # not set (auto-detect)".to_string()));
    assert!(lines.contains(&"  max_size = 1.0 KB (1024 bytes)".to_string()));
    assert!(lines
        .contains(&"  ttl_seconds = 1 hour 1 minute 1 second (3661 seconds)".to_string()));
    assert!(lines.contains(&"  weekly_limit = 20.00 # $20.00 per week".to_string()));
    assert_eq!(lines.last().unwrap(), "  show_in_stats = true");
}

#[test]
fn all_settings_can_be_shown_as_json() {
    let mut c = config();
    let file = ConfigFile {
        path: "/c".to_string(),
        exists: true,
        size_shown: "1.0 KB".to_string(),
    };
    let shown = run(&mut c, &ConfigAction::Show, &file, &None, true).unwrap();
    assert!(shown.lines.is_empty() && !shown.save && !shown.save_defaults);
    assert_eq!(
        render(&shown.value.unwrap()),
        [
            r#"{"default_format":{"format":"text","include_thinking":true,"include_tool_use":true,"#,
            r#""include_timestamps":false,"pretty_json":false},"#,
            r#""theme":{"name":"dark","color":true,"unicode":true},"#,
            r#""display":{"full_ids":false,"show_sizes":true,"truncate_at":80,"context_lines":2},"#,
            r#""cache":{"enabled":true,"directory":null,"max_size":1024,"ttl_seconds":3661},"#,
            r#""budget":{"daily_limit":null,"weekly_limit":20.0,"monthly_limit":null,"#,
            r#""warning_threshold":0.8,"show_in_stats":true}}"#,
        ]
        .concat()
    );
    assert_eq!(c, config());
    let shown = run(&mut c, &ConfigAction::Show, &file, &None, false).unwrap();
    assert!(shown.value.is_none());
    assert_eq!(shown.lines, show_config(&c, "1.0 KB"));
}

#[test]
fn the_file_is_made_only_where_there_is_none() {
    assert!(init_config(false, "/c").write_defaults);
    assert_eq!(init_config(true, "/c").lines.len(), 2);
    assert!(!reset_config(false, "/c").write_defaults);
    assert_eq!(reset_config(true, "/c").lines, vec!["Reset configuration to defaults at: /c"]);
}

#[test]
fn one_setting_can_be_printed_as_json() {
    let mut c = config();
    let file = ConfigFile {
        path: "/c".to_string(),
        exists: true,
        size_shown: String::new(),
    };
    let get = ConfigAction::Get { key: "theme.name".to_string() };
    let outcome = run(&mut c, &get, &file, &None, true).unwrap();
    assert_eq!(outcome.lines, vec!["{\"theme.name\":\"dark\"}"]);
    assert!(!outcome.save);
    let change = ConfigAction::Change { key: "theme.name".to_string(), value: "x".to_string() };
    assert!(run(&mut c, &change, &file, &None, false).unwrap().save);
    assert_eq!(c.theme_name, "x");
    let path = run(&mut c, &ConfigAction::Path, &file, &None, false).unwrap();
    assert_eq!(path.lines, vec!["/c"]);
}
