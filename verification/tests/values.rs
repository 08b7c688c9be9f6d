use snatch::json::{self, Json};
use snatch::names;
use snatch::order;
use snatch::provider::{LogicalSessionKey, ProviderSelection};
use snatch::text;
use snatch::time;

const SAMPLES: [&str; 9] = [
    "",
    " ",
    "plain",
    "  two  words ",
    "a\nb\r\nc\n",
    "\u{a0}ßtraße\u{3000}\t",
    "é\u{85}\u{2028}ü",
    "\"quoted\" \\ \u{1}\u{1f}\u{7f}",
    "日本語 text\n\n",
];

#[test]
fn texts_behave_as_strings_do() {
    for s in SAMPLES {
        assert_eq!(text::trim(s), s.trim());
        assert_eq!(text::lines(s), s.lines().collect::<Vec<_>>());
        assert_eq!(text::words(s), s.split_whitespace().collect::<Vec<_>>());
        assert_eq!(text::split(s, ' '), s.split(' ').collect::<Vec<_>>());
        assert_eq!(text::replace(s, 'a', "--"), s.replace('a', "--"));
        assert_eq!(text::bytes(s), s.len());
        assert_eq!(text::pad(s, 12), format!("{s:<12}"));
        assert_eq!(text::pad_left(s, 12), format!("{s:>12}"));
        assert_eq!(text::take_chars(s, 3), s.chars().take(3).collect::<String>());
        for t in SAMPLES {
            assert_eq!(text::contains(s, t), s.contains(t));
            assert_eq!(text::starts_with(s, t), s.starts_with(t));
            assert_eq!(text::ends_with(s, t), s.ends_with(t));
            assert_eq!(text::before(s, t), s < t);
            assert_eq!(text::same(s, t), s == t);
        }
    }
}

#[test]
fn blank_characters_are_those_of_unicode() {
    for code in (0..0x3100).chain(0xfe00..0x10000) {
        if let Some(c) = char::from_u32(code) {
            assert_eq!(text::white(c), c.is_whitespace(), "{code:x}");
        }
    }
}

#[test]
fn numbers_are_written_and_read() {
    for n in [0, 7, 10, 99, 100, 12_345, u64::MAX] {
        assert_eq!(text::number(n), n.to_string());
        assert_eq!(text::parse_number(&n.to_string(), u64::MAX), Some(n));
        assert_eq!(text::zero_fill(n, 4), format!("{n:04}"));
    }
    for n in [0, -1, i64::MIN, i64::MAX] {
        assert_eq!(text::signed(n), n.to_string());
    }
    for s in ["", "+", "+5", "-5", "5 ", "18446744073709551616", "٣"] {
        assert_eq!(text::parse_number(s, u64::MAX), s.parse::<u64>().ok(), "{s}");
    }
    assert_eq!(text::join(&vec!["a".to_string(), "b".to_string()], ", "), "a, b");
    assert_eq!(text::repeat('=', 3), "===");
}

fn value(j: &Json) -> serde_json::Value {
    match j {
        Json::Null => serde_json::Value::Null,
        Json::Bool(b) => serde_json::Value::Bool(*b),
        Json::Number(n) => serde_json::from_str(n).unwrap(),
        Json::Text(t) => serde_json::Value::String(t.clone()),
        Json::Array(items) => serde_json::Value::Array(items.iter().map(value).collect()),
        Json::Object(fields) => {
            let mut map = serde_json::Map::new();
            for (name, field) in fields {
                map.insert(name.clone(), value(field));
            }
            serde_json::Value::Object(map)
        }
    }
}

fn sample() -> Json {
    Json::Object(vec![
        ("a".to_string(), Json::Array(SAMPLES.iter().map(|s| json::of_text(s)).collect())),
        ("b".to_string(), Json::Null),
        ("c\"".to_string(), Json::Number("-1.5".to_string())),
        ("d".to_string(), Json::Array(vec![Json::Bool(true), Json::Object(vec![])])),
    ])
}

#[test]
fn values_are_written_compactly() {
    assert_eq!(json::render(&sample()), serde_json::to_string(&value(&sample())).unwrap());
}

#[test]
fn different_values_have_different_texts() {
    let a = json::of_text("1");
    let b = json::of_number(1);
    assert_ne!(json::render(&a), json::render(&b));
    assert_eq!(json::render(&sample().copy()), json::render(&sample()));
}

#[test]
fn fields_are_sorted_at_every_depth() {
    let inner = Json::Object(vec![
        ("z".to_string(), Json::Null),
        ("a".to_string(), Json::Bool(false)),
    ]);
    let outer = Json::Object(vec![
        ("y".to_string(), Json::Array(vec![inner])),
        ("b".to_string(), Json::Null),
    ]);
    assert_eq!(
        json::render(&json::sort_json_objects(&outer)),
        "{\"b\":null,\"y\":[{\"a\":false,\"z\":null}]}"
    );
}

#[test]
fn a_field_that_was_set_is_found() {
    let mut fields = vec![("a".to_string(), Json::Null), ("b".to_string(), Json::Null)];
    json::set_field(&mut fields, "a", json::of_text("x"));
    json::set_field(&mut fields, "c", json::of_size(3));
    assert_eq!(json::get_text(&fields, "a").unwrap(), "x");
    assert_eq!(json::as_count(json::get(&fields, "c").unwrap()), Some(3));
    assert_eq!(json::as_count(&Json::Number("-3".to_string())), None);
    assert!(json::get(&fields, "d").is_none());
    assert_eq!(json::render(&Json::Object(fields)), "{\"a\":\"x\",\"b\":null,\"c\":3}");
}

#[test]
fn empty_lists_and_missing_values_leave_no_field() {
    let mut fields = vec![];
    json::put_some_texts(&mut fields, "a", &vec![]);
    json::put_some_items(&mut fields, "b", Json::Array(vec![]));
    json::put_given_text(&mut fields, "c", &None);
    json::put_given_size(&mut fields, "d", None);
    json::put_given_truth(&mut fields, "e", None);
    json::put_given_time(&mut fields, "f", None);
    assert!(fields.is_empty());
    json::put_given_time(&mut fields, "f", Some(1_500_000_000));
    json::put_given_truth(&mut fields, "e", Some(true));
    assert_eq!(
        json::render(&Json::Object(fields)),
        "{\"f\":\"1970-01-01T00:00:01.500+00:00\",\"e\":true}"
    );
    assert_eq!(json::render(&json::of_time(None, false)), "null");
    assert_eq!(json::render(&json::of_optional_size(None)), "null");
}

#[test]
fn names_are_kept_in_order_and_once() {
    let mut set = vec![];
    for name in ["b", "a", "b", "c", "a"] {
        names::insert_name(&mut set, name.to_string());
    }
    assert_eq!(set, ["a", "b", "c"]);
    assert!(names::holds_name(&set, "b") && !names::holds_name(&set, "d"));
    let list = vec!["z".to_string(), "y".to_string(), "z".to_string()];
    assert_eq!(names::ordered_names(&list), ["y", "z"]);
    assert_eq!(names::copy_names(&list), list);
}

fn key(provider: &str, namespace: &str, native_id: &str) -> LogicalSessionKey {
    LogicalSessionKey {
        provider: provider.to_string(),
        namespace: namespace.to_string(),
        native_id: native_id.to_string(),
        qualified: format!("{provider}:{native_id}"),
    }
}

#[test]
fn keys_are_ordered_by_their_parts() {
    let a = key("a", "x", "2");
    let b = key("a", "y", "1");
    assert!(a.before(&b) && !b.before(&a) && !a.before(&a));
    assert!(a.same(&a.copy()) && !a.same(&b));
}

#[test]
fn providers_are_selected() {
    let flags = |list: &[&str]| list.iter().map(|s| s.to_string()).collect::<Vec<_>>();
    let all = ProviderSelection::from_flags(&flags(&["all"])).unwrap();
    assert!(all.holds("anything"));
    let one = ProviderSelection::from_flags(&flags(&["a"])).unwrap();
    assert!(one.holds("a") && !one.holds("b"));
    assert!(ProviderSelection::from_flags(&flags(&["all", "a"])).is_err());
}

#[test]
fn unknown_times_come_first() {
    assert!(order::earlier(None, Some(i128::MIN)));
    assert!(!order::earlier(Some(1), Some(1)));
    assert!(!order::earlier(None, None));
}

#[test]
fn times_are_those_of_the_calendar() {
    let instant = chrono::DateTime::from_timestamp(1_735_034_400, 5_000_000).unwrap();
    let nanos = 1_735_034_400_005_000_000;
    assert_eq!(time::show(nanos, "%Y-%m-%d %H:%M:%S%.f"), Some(
        instant.format("%Y-%m-%d %H:%M:%S%.f").to_string()
    ));
    assert_eq!(time::stamp(nanos, false), Some(instant.to_rfc3339()));
    assert_eq!(time::stamp(nanos, true).unwrap(), "2024-12-24T10:00:00.005Z");
    assert_eq!(time::stamp(i128::MAX, true), None);
    assert_eq!(time::show(i64::MAX as i128 * 1_000_000_000, "%Y"), None);
    assert_eq!(time::show_or(None, "%Y", "unknown"), "unknown");
    assert_eq!(time::split_time(-1), (-1, 999_999_999));
}
