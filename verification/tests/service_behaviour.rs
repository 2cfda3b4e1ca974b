use compatd::openrc::generate;
use compatd::unit::{join_continuations, parse};

#[test]
fn join_doc_example() {
    let out = join_continuations("ExecStart=/usr/bin/foo \\\n    --bar");
    assert_eq!(out, "ExecStart=/usr/bin/foo --bar\n");
}

#[test]
fn join_normalizes_line_endings() {
    assert_eq!(join_continuations("a\r\nb"), "a\nb\n");
    assert_eq!(join_continuations(""), "");
    assert_eq!(join_continuations("\n\n"), "\n\n");
}

#[test]
fn join_pending_continuation_at_end() {
    assert_eq!(join_continuations("a \\"), "a\n");
    assert_eq!(join_continuations("x=1 \\\n  \\\n  y"), "x=1  y\n");
}

#[test]
fn keys_outside_their_section_are_ignored() {
    let svc = parse("User=x\n[Unit]\nUser=y\n[Other]\nUser=z\n");
    assert!(svc.user.is_none());
    let svc = parse("Description=x\n[Service]\nDescription=y\n");
    assert!(svc.description.is_none());
}

#[test]
fn comments_blank_lines_and_spacing() {
    let svc = parse("# comment\n\n[Service]\n   # another\n  User = bob  \nnot an entry\n");
    assert_eq!(svc.user.as_deref(), Some("bob"));
}

#[test]
fn last_value_wins_and_lists_accumulate() {
    let svc = parse(
        "[Service]\nUser=a\nEnvironmentFile=/e1\n[Unit]\nEnvironmentFile=/x\n[Service]\nUser=b\nEnvironmentFile=/e2\n",
    );
    assert_eq!(svc.user.as_deref(), Some("b"));
    assert_eq!(svc.environment_file, vec!["/e1".to_string(), "/e2".to_string()]);
}

#[test]
fn unescape_backslashes_and_quotes() {
    let svc = parse("[Service]\nExecStart=a\\\"b\\\\c\\d \"e f\"\n");
    assert_eq!(svc.exec_start.as_deref(), Some("a\"b\\c\\d e f"));
    let svc = parse("[Service]\nExecStop=/bin/plain --arg\n");
    assert_eq!(svc.exec_stop.as_deref(), Some("/bin/plain --arg"));
}

#[test]
fn environment_words() {
    let svc = parse("[Service]\nEnvironment=A=1\t\tB=2 \"C=x\ty\"\nEnvironment=PATH=/usr/bin\n");
    assert_eq!(
        svc.environment,
        vec!["A=1".to_string(), "B=2".to_string(), "C=x\ty".to_string(), "PATH=/usr/bin".to_string()]
    );
}

#[test]
fn service_reads_back_description_command_user() {
    let svc = parse("[Unit]\nDescription=d d\n[Service]\nExecStart=/bin/c --x\nUser=u\n");
    assert_eq!(svc.description.as_deref(), Some("d d"));
    assert_eq!(svc.exec_start.as_deref(), Some("/bin/c --x"));
    assert_eq!(svc.user.as_deref(), Some("u"));
}

#[test]
fn all_service_keys() {
    let svc = parse(
        "[Service]\nType=forking\nExecReload=/bin/r\nGroup=g\nWorkingDirectory=/w\nPIDFile=/p\nRestart=always\nDelegate=yes\n",
    );
    assert_eq!(svc.service_type.as_deref(), Some("forking"));
    assert_eq!(svc.exec_reload.as_deref(), Some("/bin/r"));
    assert_eq!(svc.group.as_deref(), Some("g"));
    assert_eq!(svc.working_directory.as_deref(), Some("/w"));
    assert_eq!(svc.pid_file.as_deref(), Some("/p"));
    assert_eq!(svc.restart.as_deref(), Some("always"));
    assert_eq!(svc.delegate.as_deref(), Some("yes"));
}

#[test]
fn generate_full_script() {
    let svc = parse(
        "[Unit]\nDescription=My daemon\n[Service]\nExecStart=/usr/bin/myd --foreground -v\nUser=me\nEnvironment=A=1 \"B=two words\"\nEnvironmentFile=/etc/default/myd\nPIDFile=/run/myd.pid\nWorkingDirectory=/var/lib/myd\nRestart=on-failure\nDelegate=yes\nExecReload=/bin/kill -HUP $MAINPID\nExecStop=/usr/bin/myctl stop\n",
    );
    let expected = String::new()
        + "#!/sbin/openrc-run\n\n"
        + "description=\"My daemon\"\n\n"
        + "export LD_PRELOAD=\"/usr/lib/compatd/libcompatd_preload.so${LD_PRELOAD:+:$LD_PRELOAD}\"\n\n"
        + "export A=1\n"
        + "export B=two words\n"
        + ". \"/etc/default/myd\"\n"
        + "\n"
        + "command=\"/usr/bin/myd --foreground -v\"\n"
        + "command_args=\"--foreground -v\"\n"
        + "command=\"/usr/bin/myd\"\n"
        + "command_user=\"me\"\n"
        + "pidfile=\"/run/myd.pid\"\n"
        + "directory=\"/var/lib/myd\"\n"
        + "supervisor=\"supervise-daemon\"\n"
        + "\nstart_pre() {\n\tebegin \"Setting up cgroups for My daemon\"\n\t/usr/local/bin/compatd cgroup --delegate --user me \"My daemon\"\n\teend $?\n}\n"
        + "\nreload() {\n\tebegin \"Reloading My daemon\"\n\t/bin/kill -HUP $MAINPID\n\teend $?\n}\n"
        + "\nstop() {\n\tebegin \"Stopping My daemon\"\n\t/usr/bin/myctl stop\n\teend $?\n}\n";
    assert_eq!(generate(&svc), expected);
}

#[test]
fn generate_minimal_script() {
    let svc = parse("[Service]\nGroup=grp\nRestart=no\nDelegate=no\n");
    let expected = String::new()
        + "#!/sbin/openrc-run\n\n"
        + "export LD_PRELOAD=\"/usr/lib/compatd/libcompatd_preload.so${LD_PRELOAD:+:$LD_PRELOAD}\"\n\n"
        + "command=\"/bin/false\"\n"
        + "command_user=\":grp\"\n";
    assert_eq!(generate(&svc), expected);
}

#[test]
fn generate_split_command_doc_example() {
    let svc = parse("[Service]\nExecStart=/usr/bin/foo   --bar baz\n");
    let out = generate(&svc);
    assert!(out.contains("command=\"/usr/bin/foo   --bar baz\"\ncommand_args=\"--bar baz\"\ncommand=\"/usr/bin/foo\"\n"));
}

#[test]
fn generate_delegate_defaults_and_stop_name() {
    let svc = parse("[Service]\nDelegate=container\nExecStop=/bin/stop\n");
    let out = generate(&svc);
    assert!(out.contains("ebegin \"Setting up cgroups for service\"\n\t/usr/local/bin/compatd cgroup --delegate --user root \"service\"\n"));
    assert!(out.ends_with("\nstop() {\n\tebegin \"Stopping service\"\n\t/bin/stop\n\teend $?\n}\n"));
}

#[test]
fn joined_line_count() {
    let input = "a \\\nb\nc\nd \\\ne \\\nf\ng \\";
    let out = join_continuations(input);
    assert_eq!(out, "a b\nc\nd e f\ng\n");
    assert_eq!(out.lines().count(), 4);
}

#[test]
fn every_service_field_last_wins_or_appends() {
    let svc = parse(
        "[Service]\nType=simple\nType=notify\nExecStop=\"a\"\nExecStop=b\nExecReload=r1\nExecReload=\"r 2\"\nGroup=g1\nGroup=g2\nWorkingDirectory=/a\nWorkingDirectory=/b\nEnvironment=A=1\nEnvironment=B=2 C=3\nPIDFile=/p1\nPIDFile=/p2\nRestart=no\nRestart=always\nDelegate=no\nDelegate=yes\n[Other]\nType=x\n",
    );
    assert_eq!(svc.service_type.as_deref(), Some("notify"));
    assert_eq!(svc.exec_stop.as_deref(), Some("b"));
    assert_eq!(svc.exec_reload.as_deref(), Some("r 2"));
    assert_eq!(svc.group.as_deref(), Some("g2"));
    assert_eq!(svc.working_directory.as_deref(), Some("/b"));
    assert_eq!(svc.environment, vec!["A=1".to_string(), "B=2".to_string(), "C=3".to_string()]);
    assert_eq!(svc.pid_file.as_deref(), Some("/p2"));
    assert_eq!(svc.restart.as_deref(), Some("always"));
    assert_eq!(svc.delegate.as_deref(), Some("yes"));
}
