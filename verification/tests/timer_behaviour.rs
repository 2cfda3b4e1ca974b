use compatd::timer::{boot_delay_in_range, on_calendar_to_cron, parse, parse_duration, to_cron};

#[test]
fn to_cron_all_lines() {
    let t = parse("[Unit]\nDescription=Job\n[Timer]\nOnCalendar=daily\nOnCalendar=Mon 10:00\nOnBootSec=5min\n");
    assert!(boot_delay_in_range(&t));
    assert_eq!(
        to_cron(&t),
        vec![
            "# Job".to_string(),
            "0 0 * * *".to_string(),
            "# Unsupported OnCalendar: Mon 10:00".to_string(),
            "@reboot sleep 300 /usr/bin/systemd-timer-compat \"$@\"".to_string(),
        ]
    );
}

#[test]
fn to_cron_zero_boot_delay() {
    let t = parse("[Timer]\nOnBootSec=soon\n");
    assert_eq!(to_cron(&t), vec!["@reboot /usr/bin/systemd-timer-compat \"$@\"".to_string()]);
}

#[test]
fn to_cron_nothing() {
    let t = parse("[Timer]\nPersistent=no\n");
    assert!(to_cron(&t).is_empty());
    assert!(!t.persistent);
}

#[test]
fn cron_line_count_law_example() {
    let t = parse("[Timer]\nOnCalendar=hourly\nOnCalendar=weekly\nOnCalendar=*:0/5\n");
    let lines = to_cron(&t);
    assert_eq!(lines.len(), 3);
    assert_eq!(lines[2], "*/5 * * * *");
}

#[test]
fn cron_explicit_forms() {
    assert_eq!(on_calendar_to_cron("*-*-* *:*:00"), Some("* * * * *".to_string()));
    assert_eq!(on_calendar_to_cron("*-*-* *:00:00"), Some("0 * * * *".to_string()));
    assert_eq!(on_calendar_to_cron("*-*-* 00:00:00"), Some("0 0 * * *".to_string()));
    assert_eq!(on_calendar_to_cron("Mon *-*-* 00:00:00"), Some("0 0 * * 1".to_string()));
    assert_eq!(on_calendar_to_cron("monthly"), Some("0 0 1 * *".to_string()));
    assert_eq!(on_calendar_to_cron("*-*-01 00:00:00"), Some("0 0 1 * *".to_string()));
    assert_eq!(on_calendar_to_cron("yearly"), Some("0 0 1 1 *".to_string()));
    assert_eq!(on_calendar_to_cron("*-01-01 00:00:00"), Some("0 0 1 1 *".to_string()));
    assert_eq!(on_calendar_to_cron("*:1/15"), Some("# Unsupported OnCalendar: *:1/15".to_string()));
    assert_eq!(on_calendar_to_cron("*:0/"), Some("*/ * * * *".to_string()));
}

#[test]
fn duration_units_and_edges() {
    assert_eq!(parse_duration("2m"), 120);
    assert_eq!(parse_duration("90"), 90);
    assert_eq!(parse_duration(" 7h "), 25200);
    assert_eq!(parse_duration("5ms"), 0);
    assert_eq!(parse_duration("+3s"), 3);
    assert_eq!(parse_duration("-3s"), 0);
    assert_eq!(parse_duration(""), 0);
    assert_eq!(parse_duration("min"), 0);
    assert_eq!(parse_duration("18446744073709551615s"), u64::MAX);
    assert_eq!(parse_duration("18446744073709551616s"), 0);
}

#[test]
fn boot_delay_overflow_is_detected() {
    let t = parse("[Timer]\nOnBootSec=18446744073709551615min\n");
    assert!(!boot_delay_in_range(&t));
    let t = parse("[Timer]\nOnBootSec=307445734561825860min\n");
    assert!(boot_delay_in_range(&t));
    let t = parse("[Timer]\nOnBootSec=307445734561825861min\n");
    assert!(!boot_delay_in_range(&t));
}

#[test]
fn timer_keys_and_persistence() {
    let t = parse(
        "[Timer]\nPersistent=1\nOnUnitActiveSec=1h\nOnUnitInactiveSec=2h\nOnBootSec=1\nPersistent=yes\n",
    );
    assert!(t.persistent);
    assert_eq!(t.on_unit_active_sec.as_deref(), Some("1h"));
    assert_eq!(t.on_unit_inactive_sec.as_deref(), Some("2h"));
    assert_eq!(t.on_boot_sec.as_deref(), Some("1"));
    let t = parse("[Timer]\nPersistent=true\nPersistent=TRUE\n");
    assert!(!t.persistent);
}

#[test]
fn timer_lines_are_not_joined() {
    let t = parse("[Timer]\nOnCalendar=daily \\\nOnCalendar=hourly\n");
    assert_eq!(t.on_calendar, vec!["daily \\".to_string(), "hourly".to_string()]);
}
