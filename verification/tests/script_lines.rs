use compatd::openrc::generate;
use compatd::socket;
use compatd::unit::{parse, parse_env_line};

fn lines_of(text: &str) -> Vec<String> {
    text.lines().map(|l| l.to_string()).collect()
}

fn count_starting(lines: &[String], key: &str) -> usize {
    lines.iter().filter(|l| l.starts_with(key)).count()
}

#[test]
fn supervisor_only_when_restarting() {
    for (restart, wanted) in [
        ("always", 1),
        ("on-failure", 1),
        ("no", 0),
        ("on-abnormal", 0),
        ("on-success", 0),
    ] {
        let svc = parse(&format!("[Service]\nExecStart=/usr/bin/myd\nRestart={restart}\n"));
        let ls = lines_of(&generate(&svc));
        assert_eq!(count_starting(&ls, "supervisor="), wanted, "Restart={restart}");
        assert_eq!(
            ls.iter().filter(|l| *l == "supervisor=\"supervise-daemon\"").count(),
            wanted
        );
    }
    let svc = parse("[Service]\nExecStart=/usr/bin/myd\n");
    assert_eq!(count_starting(&lines_of(&generate(&svc)), "supervisor="), 0);
}

#[test]
fn command_lines_follow_the_opening() {
    let svc = parse("[Service]\nExecStart=/usr/bin/foo  --bar\tbaz\n");
    let ls = lines_of(&generate(&svc));
    let at = ls.iter().position(|l| l.starts_with("command=")).unwrap();
    assert_eq!(ls[at], "command=\"/usr/bin/foo  --bar\tbaz\"");
    assert_eq!(ls[at + 1], "command_args=\"--bar baz\"");
    assert_eq!(ls[at + 2], "command=\"/usr/bin/foo\"");
    assert_eq!(count_starting(&ls, "command=\""), 2);
    assert_eq!(count_starting(&ls, "command_args=\""), 1);

    let svc = parse("[Service]\nExecStart=/usr/bin/foo\n");
    let ls = lines_of(&generate(&svc));
    assert_eq!(count_starting(&ls, "command=\""), 1);
    assert_eq!(count_starting(&ls, "command_args=\""), 0);

    let svc = parse("[Service]\nType=oneshot\n");
    let ls = lines_of(&generate(&svc));
    assert_eq!(ls[4], "command=\"/bin/false\"");
    assert_eq!(count_starting(&ls, "command=\""), 1);
}

#[test]
fn user_group_pidfile_directory_lines() {
    let svc = parse("[Service]\nUser=www\nGroup=web\nPIDFile=/run/x.pid\nWorkingDirectory=/srv\n");
    let ls = lines_of(&generate(&svc));
    let users: Vec<&String> = ls.iter().filter(|l| l.starts_with("command_user=\"")).collect();
    assert_eq!(users, vec!["command_user=\"www\""]);
    let pids: Vec<&String> = ls.iter().filter(|l| l.starts_with("pidfile=\"")).collect();
    assert_eq!(pids, vec!["pidfile=\"/run/x.pid\""]);
    let dirs: Vec<&String> = ls.iter().filter(|l| l.starts_with("directory=\"")).collect();
    assert_eq!(dirs, vec!["directory=\"/srv\""]);

    let svc = parse("[Service]\nGroup=web\n");
    let ls = lines_of(&generate(&svc));
    let users: Vec<&String> = ls.iter().filter(|l| l.starts_with("command_user=\"")).collect();
    assert_eq!(users, vec!["command_user=\":web\""]);
    assert_eq!(count_starting(&ls, "pidfile=\""), 0);
    assert_eq!(count_starting(&ls, "directory=\""), 0);

    let svc = parse("[Service]\nExecStart=/bin/true\n");
    assert_eq!(count_starting(&lines_of(&generate(&svc)), "command_user="), 0);
}

#[test]
fn functions_come_last_in_order() {
    let svc = parse(
        "[Unit]\nDescription=App\n[Service]\nExecStart=/bin/app\nDelegate=container\nExecReload=/bin/kill -HUP $MAINPID\nExecStop=/bin/app stop\n",
    );
    let ls = lines_of(&generate(&svc));
    let tail: Vec<&str> = ls[ls.len() - 18..].iter().map(|l| l.as_str()).collect();
    assert_eq!(
        tail,
        vec![
            "",
            "start_pre() {",
            "\tebegin \"Setting up cgroups for App\"",
            "\t/usr/local/bin/compatd cgroup --delegate --user root \"App\"",
            "\teend $?",
            "}",
            "",
            "reload() {",
            "\tebegin \"Reloading App\"",
            "\t/bin/kill -HUP $MAINPID",
            "\teend $?",
            "}",
            "",
            "stop() {",
            "\tebegin \"Stopping App\"",
            "\t/bin/app stop",
            "\teend $?",
            "}",
        ]
    );
    let svc = parse("[Service]\nExecStart=/bin/app\nDelegate=no\nExecStop=/bin/app stop\n");
    let ls = lines_of(&generate(&svc));
    assert_eq!(ls.iter().filter(|l| *l == "start_pre() {").count(), 0);
    assert_eq!(ls.iter().filter(|l| *l == "reload() {").count(), 0);
    assert_eq!(ls.iter().filter(|l| *l == "stop() {").count(), 1);
}

#[test]
fn opening_lines_in_order() {
    let svc = parse(
        "[Unit]\nDescription=Demo\n[Service]\nEnvironment=A=1 B=2\nEnvironmentFile=/etc/default/demo\nExecStart=/bin/demo\n",
    );
    let ls = lines_of(&generate(&svc));
    assert_eq!(
        ls[..10].to_vec(),
        vec![
            "#!/sbin/openrc-run",
            "",
            "description=\"Demo\"",
            "",
            "export LD_PRELOAD=\"/usr/lib/compatd/libcompatd_preload.so${LD_PRELOAD:+:$LD_PRELOAD}\"",
            "",
            "export A=1",
            "export B=2",
            ". \"/etc/default/demo\"",
            "",
        ]
    );
    assert_eq!(ls[10], "command=\"/bin/demo\"");
}

#[test]
fn s6_program_serves_the_first_stream_only() {
    let s = socket::parse(
        "[Socket]\nListenStream=/run/a.sock\nListenStream=0.0.0.0:80\nSocketUser=www\nService=a.service\n",
    );
    let out = socket::to_s6(&s);
    assert!(!out.ends_with('\n'));
    let ls = lines_of(&out);
    let n = ls.len();
    assert_eq!(ls[n - 1], "s6-ipcserver -l0 -- /run/a.sock ./a.service");
    assert_eq!(ls[n - 2], "s6-setuidgid www");
    assert_eq!(ls[n - 3], "");
    assert_eq!(ls[n - 4], "#!/bin/execlineb -P");
    assert_eq!(ls.iter().filter(|l| l.starts_with("s6-")).count(), 2);
    assert_eq!(ls.iter().filter(|l| l.contains("0.0.0.0:80")).count(), 0);
}

#[test]
fn s6_without_stream_is_all_comments() {
    let s = socket::parse("[Socket]\nListenDatagram=/run/d\nListenFIFO=/run/f\nSocketUser=www\n");
    let out = socket::to_s6(&s);
    for l in out.lines() {
        assert!(l.is_empty() || l.starts_with("# "), "{l:?}");
    }
    assert!(!out.contains("execlineb"));
    assert!(!out.contains("s6-ipcserver") && !out.contains("s6-tcpserver"));
}

fn env_words(text: &str) -> Vec<String> {
    let input: Vec<char> = text.chars().collect();
    parse_env_line(&input).into_iter().map(|w| w.into_iter().collect()).collect()
}

#[test]
fn env_unquoted_splits_at_spaces_and_tabs() {
    assert_eq!(env_words("A=1\nB=2  C=3\t\tD"), vec!["A=1\nB=2", "C=3", "D"]);
    assert_eq!(env_words("  \t "), Vec::<String>::new());
    let text = "x\u{a0}y z";
    let expected: Vec<String> = text
        .split(|c| c == ' ' || c == '\t')
        .filter(|w| !w.is_empty())
        .map(String::from)
        .collect();
    assert_eq!(env_words(text), expected);
}

#[test]
fn env_words_concatenate_to_the_kept_text() {
    let words = env_words("a \"b c\" d\"e");
    assert_eq!(words, vec!["a", "b c", "de"]);
    assert!(words.iter().all(|w| !w.is_empty() && !w.contains('"')));
    assert_eq!(words.concat(), "ab cde");
    let words = env_words("\"\" x\"\"y \"unclosed tail");
    assert_eq!(words, vec!["xy", "unclosed tail"]);
}
