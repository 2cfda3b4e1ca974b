use compatd::unit::{join_continuations, parse};

#[test]
fn unit_test_parse_basic() {
    let input = "\
[Unit]
Description=My test

[Service]
Type=simple
ExecStart=/usr/bin/foo --bar
User=testuser
Group=testgroup
";
    let svc = parse(input);
    assert_eq!(svc.description.as_deref(), Some("My test"));
    assert_eq!(svc.service_type.as_deref(), Some("simple"));
    assert_eq!(svc.exec_start.as_deref(), Some("/usr/bin/foo --bar"));
    assert_eq!(svc.user.as_deref(), Some("testuser"));
    assert_eq!(svc.group.as_deref(), Some("testgroup"));
}

#[test]
fn test_parse_environment() {
    let input = "\
[Service]
Environment=FOO=bar
Environment=BAZ=123
";
    let svc = parse(input);
    assert_eq!(svc.environment.len(), 2);
    assert_eq!(svc.environment[0], "FOO=bar");
    assert_eq!(svc.environment[1], "BAZ=123");
}

#[test]
fn test_environment_quoted() {
    let input = r#"
[Service]
Environment="FOO=a b" BAR=1
"#;
    let svc = parse(input);
    assert_eq!(svc.environment.len(), 2);
    assert_eq!(svc.environment[0], "FOO=a b");
    assert_eq!(svc.environment[1], "BAR=1");
}

#[test]
fn test_continuation() {
    let input = "\
[Service]
ExecStart=/usr/bin/foo \
    --bar \
    --baz
";
    let svc = parse(input);
    assert_eq!(svc.exec_start.as_deref(), Some("/usr/bin/foo --bar --baz"));
}

#[test]
fn test_environment_file() {
    let input = "\
[Service]
EnvironmentFile=/etc/default/foo
EnvironmentFile=/etc/foo/env
";
    let svc = parse(input);
    assert_eq!(svc.environment_file.len(), 2);
    assert_eq!(svc.environment_file[0], "/etc/default/foo");
    assert_eq!(svc.environment_file[1], "/etc/foo/env");
}

#[test]
fn test_unescape() {
    let input = r#"
[Service]
ExecStart=/usr/bin/foo "arg with space"
"#;
    let svc = parse(input);
    assert_eq!(svc.exec_start.as_deref(), Some("/usr/bin/foo arg with space"));
}

#[test]
fn test_parse_empty() {
    let svc = parse("");
    assert!(svc.description.is_none());
    assert!(svc.exec_start.is_none());
}

#[test]
fn test_join_continuations() {
    let input = "ExecStart=/usr/bin/foo \\\n    --bar \\\n    --baz\nType=simple\n";
    let out = join_continuations(input);
    assert_eq!(out, "ExecStart=/usr/bin/foo --bar --baz\nType=simple\n");
}
