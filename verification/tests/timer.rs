use compatd::timer::{on_calendar_to_cron, parse, parse_duration};

#[test]
fn test_parse_timer_basic() {
    let input = "\
[Unit]
Description=Daily cleanup

[Timer]
OnCalendar=daily
Persistent=true
";
    let t = parse(input);
    assert_eq!(t.description.as_deref(), Some("Daily cleanup"));
    assert!(t.on_calendar.contains(&"daily".to_string()));
    assert!(t.persistent);
}

#[test]
fn test_cron_conversion() {
    assert_eq!(on_calendar_to_cron("daily"), Some("0 0 * * *".to_string()));
    assert_eq!(on_calendar_to_cron("hourly"), Some("0 * * * *".to_string()));
    assert_eq!(on_calendar_to_cron("weekly"), Some("0 0 * * 1".to_string()));
    assert_eq!(on_calendar_to_cron("minutely"), Some("* * * * *".to_string()));
}

#[test]
fn test_cron_every_15() {
    assert_eq!(on_calendar_to_cron("*:0/15"), Some("*/15 * * * *".to_string()));
}

#[test]
fn test_duration() {
    assert_eq!(parse_duration("5min"), 300);
    assert_eq!(parse_duration("1h"), 3600);
    assert_eq!(parse_duration("30s"), 30);
}
