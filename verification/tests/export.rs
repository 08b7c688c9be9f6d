use snatch::commands::export::{get_format_extension, ExportFormatArg};
use snatch::commands::parse_date_filter;
use snatch::error::SnatchError;

const SECOND: i128 = 1_000_000_000;
const DAY: i128 = 86_400 * SECOND;

#[test]
fn test_parse_date_filter_iso() {
    let result = parse_date_filter("2024-12-24", 0).unwrap();
    assert!(result.is_ok());
    assert_eq!(result, Ok(20_081 * DAY));
}

#[test]
fn test_parse_date_filter_relative() {
    let now = 20_000 * DAY;
    assert!(parse_date_filter("1day", now).unwrap().is_ok());
    assert!(parse_date_filter("2weeks", now).unwrap().is_ok());
    assert!(parse_date_filter("3months", now).unwrap().is_ok());
    assert!(parse_date_filter("1year", now).unwrap().is_ok());
}

#[test]
fn test_parse_date_filter_invalid() {
    assert!(parse_date_filter("invalid", 0).unwrap().is_err());
    assert!(parse_date_filter("abc123", 0).unwrap().is_err());
}

#[test]
fn test_get_format_extension() {
    assert_eq!(get_format_extension(ExportFormatArg::Markdown), "md");
    assert_eq!(get_format_extension(ExportFormatArg::Json), "json");
    assert_eq!(get_format_extension(ExportFormatArg::Text), "txt");
    assert_eq!(get_format_extension(ExportFormatArg::Jsonl), "jsonl");
}

#[test]
fn spans_are_taken_off_the_present() {
    let now = 20_000 * DAY + 5;
    assert_eq!(parse_date_filter("1day", now), Some(Ok(now - DAY)));
    assert_eq!(parse_date_filter("2WEEKS", now), Some(Ok(now - 14 * DAY)));
}

#[test]
fn spans_beyond_the_calendar_have_no_answer() {
    assert_eq!(parse_date_filter("999999years", 0), None);
}

#[test]
fn unknown_units_are_named() {
    assert_eq!(
        parse_date_filter("3fortnights", 0),
        Some(Err(SnatchError::InvalidArgument {
            name: "date".to_string(),
            reason: "Unknown time unit 'fortnights'. Use days, weeks, months, or years".to_string(),
        }))
    );
}
