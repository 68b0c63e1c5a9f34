use faramir::errors::{AppError, ErrorKind};
use faramir::models::config::{join_path, Config};
use faramir::models::event::Events;
use faramir::models::kind::{parse_kind, Kind};
use faramir::models::tag::{Tag, Tags};
use faramir::models::timer::CreateTimer;
use faramir::utils::{format_seconds, join_names, parse_tags, rand_string};

#[test]
fn format_seconds_zero() {
    assert_eq!(format_seconds(0), "0w, 0d, 0h, 0m, 0s");
}

#[test]
fn format_seconds_one_of_each() {
    assert_eq!(format_seconds(604800 + 86400 + 3600 + 60 + 1), "1w, 1d, 1h, 1m, 1s");
}

#[test]
fn format_seconds_large_parts() {
    assert_eq!(format_seconds(3 * 604800 + 6 * 86400 + 23 * 3600 + 59 * 60 + 59), "3w, 6d, 23h, 59m, 59s");
    assert_eq!(format_seconds(7200), "0w, 0d, 2h, 0m, 0s");
}

#[test]
fn format_seconds_negative() {
    assert_eq!(format_seconds(-90), "0w, 0d, 0h, -1m, -30s");
}

#[test]
fn format_seconds_extremes() {
    assert_eq!(format_seconds(i64::MAX), "15250284452471w, 3d, 15h, 30m, 7s");
    assert_eq!(format_seconds(i64::MIN), "-15250284452471w, -3d, -15h, -30m, -8s");
}

#[test]
fn parse_tags_none() {
    assert_eq!(parse_tags(None), None);
}

#[test]
fn parse_tags_splits_on_commas() {
    assert_eq!(parse_tags(Some("a,b")), Some(vec!["a".to_string(), "b".to_string()]));
    assert_eq!(parse_tags(Some("one")), Some(vec!["one".to_string()]));
}

#[test]
fn parse_tags_keeps_empty_pieces() {
    assert_eq!(parse_tags(Some("")), Some(vec!["".to_string()]));
    assert_eq!(parse_tags(Some("a,")), Some(vec!["a".to_string(), "".to_string()]));
    assert_eq!(parse_tags(Some("é,ü b")), Some(vec!["é".to_string(), "ü b".to_string()]));
}

#[test]
fn join_names_with_commas() {
    assert_eq!(join_names(&vec![]), "");
    assert_eq!(join_names(&vec!["a".to_string()]), "a");
    assert_eq!(join_names(&vec!["a".to_string(), "b".to_string(), "c".to_string()]), "a,b,c");
}

#[test]
fn parse_kind_words() {
    assert_eq!(parse_kind("t"), Some(Kind::Timer));
    assert_eq!(parse_kind("timers"), Some(Kind::Timer));
    assert_eq!(parse_kind("project"), Some(Kind::Project));
    assert_eq!(parse_kind("ta"), Some(Kind::Tag));
    assert_eq!(parse_kind("tags"), Some(Kind::Tag));
    assert_eq!(parse_kind("x"), None);
}

#[test]
fn rand_string_has_length_and_charset() {
    let s = rand_string(12);
    assert_eq!(s.chars().count(), 12);
    assert!(s.chars().all(|c| c.is_ascii_alphanumeric()));
    assert_eq!(rand_string(0), "");
}

#[test]
fn create_timer_new_gets_random_rid() {
    let t = CreateTimer::new(5, Some(9), Some("n".to_string()));
    assert_eq!(t.rid.len(), 12);
    assert_eq!(t.start, 5);
    assert_eq!(t.end, Some(9));
    let d = CreateTimer::default();
    assert_eq!(d.rid.len(), 12);
    assert_eq!(d.end, None);
    assert!(d.start > 1_500_000_000);
}

#[test]
fn config_dir_choices() {
    assert_eq!(Config::default_config_dir(Some("/x"), Some("/home/u")), "/x/faramir-tt");
    assert_eq!(Config::default_config_dir(None, Some("/home/u")), "/home/u/.config/faramir-tt");
    assert_eq!(Config::default_config_dir(None, None), "./faramir-tt");
    assert_eq!(Config::default_config_dir(Some(""), None), "faramir-tt");
    assert_eq!(Config::default_config_path(Some("/x/"), None), "/x/faramir-tt/config.json");
}

#[test]
fn join_path_cases() {
    assert_eq!(join_path("a", "b"), "a/b");
    assert_eq!(join_path("a/", "b"), "a/b");
    assert_eq!(join_path("", "b"), "b");
}

#[test]
fn config_defaults() {
    let c = Config::with_data_dir("/d".to_string());
    assert_eq!(c.data_dir, "/d");
    assert_eq!(c.time_format, "%Y/%m/%d %H:%M:%S");
    assert_eq!(c.timezone, "America/New_York");
}

#[test]
fn error_messages() {
    let e = AppError::from_str("boom");
    assert_eq!(e.message(), "boom");
    assert!(matches!(e.kind(), ErrorKind::Generic(_)));
    let e = AppError::new(ErrorKind::NotFound);
    assert!(matches!(e.kind(), ErrorKind::NotFound));
    assert!(!e.message().is_empty());
}

#[test]
fn tags_helpers() {
    let tags = Tags::new(vec![Tag { id: 4, name: "x".to_string() }, Tag { id: 7, name: "y".to_string() }]);
    assert_eq!(tags.len(), 2);
    assert_eq!(tags.ids().unwrap(), vec![4, 7]);
    assert_eq!(tags.names(), vec!["x".to_string(), "y".to_string()]);
    assert_eq!(Tags::default().len(), 0);
    assert_eq!(Events::new().0.len(), 0);
}

#[test]
fn parse_time_in_configured_zone() {
    let c = Config::with_data_dir("/d".to_string());
    assert_eq!(c.parse_time("2020/01/01 00:00:00").unwrap(), 1577854800);
    assert_eq!(c.parse_time("2020/07/01 12:30:00").unwrap(), 1593621000);
}

#[test]
fn parse_time_errors() {
    let c = Config::with_data_dir("/d".to_string());
    assert!(matches!(c.parse_time("yesterday").unwrap_err().0, ErrorKind::StringParse(_)));
    let mut bad = Config::with_data_dir("/d".to_string());
    bad.timezone = "Mars/Olympus".to_string();
    assert!(matches!(bad.parse_time("2020/01/01 00:00:00").unwrap_err().0, ErrorKind::StringParse(_)));
}
