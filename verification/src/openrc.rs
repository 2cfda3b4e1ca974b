//! OpenRC init scripts written from parsed `.service` units.
use vstd::prelude::*;

use crate::text::{
    chars_of, framed, is_ws, join_with, lines, push_chars, push_framed, push_joined, push_str,
    push_string, seqs, split_words, starts_with, str_eq, string_of, words, words_scan,
};
use crate::syntax::{
    is_plain_line, lemma_concat_no_newline, lemma_lines_of_terminated, lemma_terminated_concat,
    lemma_terminated_one, no_newline, terminated,
};
use crate::unit::{Service, ServiceView};

verus! {

/// The arguments of a command line: its words after the first, joined by
/// single spaces, when there are any.
pub open spec fn command_args(cmd: Seq<char>) -> Option<Seq<char>> {
    let ws = words(cmd);
    if ws.len() <= 1 {
        None
    } else {
        Some(join_with(ws.skip(1), seq![' ']))
    }
}

/// The command that the script runs: `ExecStart`, or `/bin/false`.
pub open spec fn command_of(v: ServiceView) -> Seq<char> {
    match v.exec_start {
        Some(c) => c,
        None => "/bin/false"@,
    }
}

/// The name that messages give the service: its description, or `service`.
pub open spec fn display_name(v: ServiceView) -> Seq<char> {
    match v.description {
        Some(d) => d,
        None => "service"@,
    }
}

/// The shebang, the description, and the preload of the shim library.
pub open spec fn header_part(v: ServiceView) -> Seq<char> {
    let description = match v.description {
        Some(d) => "description=\""@ + d + "\"\n\n"@,
        None => seq![],
    };
    "#!/sbin/openrc-run\n\n"@ + description + "export LD_PRELOAD=\"/usr/lib/compatd/libcompatd_preload.so${LD_PRELOAD:+:$LD_PRELOAD}\"\n\n"@
}

/// The exported variables and the sourced environment files.
pub open spec fn environment_part(v: ServiceView) -> Seq<char> {
    let gap = if v.environment.len() > 0 || v.environment_file.len() > 0 {
        "\n"@
    } else {
        seq![]
    };
    framed(v.environment, "export "@, "\n"@) + framed(v.environment_file, ". \""@, "\"\n"@) + gap
}

/// The command, and when it has arguments, the arguments and the command
/// again without them.
pub open spec fn command_part(v: ServiceView) -> Seq<char> {
    let cmd = command_of(v);
    let split = match command_args(cmd) {
        Some(args) => "command_args=\""@ + args + "\"\n"@ + "command=\""@ + words(cmd)[0]
            + "\"\n"@,
        None => seq![],
    };
    "command=\""@ + cmd + "\"\n"@ + split
}

/// The user (or else the group) to run as, the pid file, the directory, and
/// the supervisor for restarting services.
pub open spec fn settings_part(v: ServiceView) -> Seq<char> {
    let user_line = match v.user {
        Some(u) => "command_user=\""@ + u + "\"\n"@,
        None => match v.group {
            Some(g) => "command_user=\":"@ + g + "\"\n"@,
            None => seq![],
        },
    };
    let pid_line = match v.pid_file {
        Some(p) => "pidfile=\""@ + p + "\"\n"@,
        None => seq![],
    };
    let dir_line = match v.working_directory {
        Some(w) => "directory=\""@ + w + "\"\n"@,
        None => seq![],
    };
    let supervisor_line = match v.restart {
        Some(r) => if r == "always"@ || r == "on-failure"@ {
            "supervisor=\"supervise-daemon\"\n"@
        } else {
            seq![]
        },
        None => seq![],
    };
    user_line + pid_line + dir_line + supervisor_line
}

/// The `start_pre` function that sets up a delegated cgroup.
pub open spec fn delegate_part(v: ServiceView) -> Seq<char> {
    let user = match v.user {
        Some(u) => u,
        None => "root"@,
    };
    let name = display_name(v);
    match v.delegate {
        Some(d) => if d == "yes"@ || d == "container"@ {
            "\nstart_pre() {\n\tebegin \"Setting up cgroups for "@ + name
                + "\"\n\t/usr/local/bin/compatd cgroup --delegate --user "@ + user + " \""@ + name
                + "\"\n\teend $?\n}\n"@
        } else {
            seq![]
        },
        None => seq![],
    }
}

/// The `reload` and `stop` functions.
pub open spec fn functions_part(v: ServiceView) -> Seq<char> {
    let name = display_name(v);
    let reload = match v.exec_reload {
        Some(c) => "\nreload() {\n\tebegin \"Reloading "@ + name + "\"\n\t"@ + c
            + "\n\teend $?\n}\n"@,
        None => seq![],
    };
    let stop = match v.exec_stop {
        Some(c) => "\nstop() {\n\tebegin \"Stopping "@ + name + "\"\n\t"@ + c
            + "\n\teend $?\n}\n"@,
        None => seq![],
    };
    reload + stop
}

/// The OpenRC init script for the service `v`.
pub open spec fn openrc_script(v: ServiceView) -> Seq<char> {
    header_part(v) + environment_part(v) + command_part(v) + settings_part(v) + delegate_part(v)
        + functions_part(v)
}

/// The arguments of the command line `cmd`, when it has any.
pub fn extract_args(cmd: &Vec<char>) -> (r: Option<Vec<char>>)
    ensures
        match r {
            Some(a) => command_args(cmd@) == Some(a@),
            None => command_args(cmd@) is None,
        },
{
    let ws = split_words(cmd);
    if ws.len() <= 1 {
        None
    } else {
        let mut out: Vec<char> = Vec::new();
        push_joined(&mut out, &ws, 1, ' ');
        assert(out@ =~= join_with(seqs(ws@).skip(1), seq![' ']));
        Some(out)
    }
}

fn push_opt_framed(buf: &mut Vec<char>, o: &Option<String>, pre: &str, post: &str)
    ensures
        final(buf)@ == old(buf)@ + match o {
            Some(s) => pre@ + s@ + post@,
            None => seq![],
        },
{
    match o {
        Some(s) => {
            push_str(buf, pre);
            push_string(buf, s);
            push_str(buf, post);
            assert(buf@ =~= old(buf)@ + (pre@ + s@ + post@));
        },
        None => {
            assert(buf@ =~= old(buf)@ + seq![]);
        },
    }
}

fn push_header(buf: &mut Vec<char>, svc: &Service)
    ensures
        final(buf)@ == old(buf)@ + header_part(svc@),
{
    push_str(buf, "#!/sbin/openrc-run\n\n");
    push_opt_framed(buf, &svc.description, "description=\"", "\"\n\n");
    push_str(
        buf,
        "export LD_PRELOAD=\"/usr/lib/compatd/libcompatd_preload.so${LD_PRELOAD:+:$LD_PRELOAD}\"\n\n",
    );
    assert(buf@ =~= old(buf)@ + header_part(svc@));
}

fn push_environment(buf: &mut Vec<char>, svc: &Service)
    ensures
        final(buf)@ == old(buf)@ + environment_part(svc@),
{
    push_framed(buf, &svc.environment, "export ", "\n");
    push_framed(buf, &svc.environment_file, ". \"", "\"\n");
    if svc.environment.len() > 0 || svc.environment_file.len() > 0 {
        push_str(buf, "\n");
    }
    assert(buf@ =~= old(buf)@ + environment_part(svc@));
}

fn push_command(buf: &mut Vec<char>, svc: &Service)
    ensures
        final(buf)@ == old(buf)@ + command_part(svc@),
{
    let cmd = match &svc.exec_start {
        Some(c) => chars_of(c.as_str()),
        None => chars_of("/bin/false"),
    };
    assert(cmd@ == command_of(svc@));
    push_str(buf, "command=\"");
    push_chars(buf, &cmd);
    push_str(buf, "\"\n");
    let ghost mid = buf@;
    match extract_args(&cmd) {
        Some(args) => {
            push_str(buf, "command_args=\"");
            push_chars(buf, &args);
            push_str(buf, "\"\n");
            push_str(buf, "command=\"");
            let ws = split_words(&cmd);
            assert(seqs(ws@)[0] == ws@[0]@);
            push_chars(buf, &ws[0]);
            push_str(buf, "\"\n");
            assert(buf@ =~= mid + ("command_args=\""@ + args@ + "\"\n"@ + "command=\""@ + words(
                cmd@,
            )[0] + "\"\n"@));
        },
        None => {},
    }
    assert(buf@ =~= old(buf)@ + command_part(svc@));
}

fn push_settings(buf: &mut Vec<char>, svc: &Service)
    ensures
        final(buf)@ == old(buf)@ + settings_part(svc@),
{
    match &svc.user {
        Some(_) => push_opt_framed(buf, &svc.user, "command_user=\"", "\"\n"),
        None => push_opt_framed(buf, &svc.group, "command_user=\":", "\"\n"),
    }
    push_opt_framed(buf, &svc.pid_file, "pidfile=\"", "\"\n");
    push_opt_framed(buf, &svc.working_directory, "directory=\"", "\"\n");
    match &svc.restart {
        Some(r) => {
            if str_eq(r.as_str(), "always") || str_eq(r.as_str(), "on-failure") {
                push_str(buf, "supervisor=\"supervise-daemon\"\n");
            }
        },
        None => {},
    }
    assert(buf@ =~= old(buf)@ + settings_part(svc@));
}

fn push_delegate(buf: &mut Vec<char>, svc: &Service)
    ensures
        final(buf)@ == old(buf)@ + delegate_part(svc@),
{
    match &svc.delegate {
        Some(d) => {
            if str_eq(d.as_str(), "yes") || str_eq(d.as_str(), "container") {
                let user = match &svc.user {
                    Some(u) => chars_of(u.as_str()),
                    None => chars_of("root"),
                };
                let name = match &svc.description {
                    Some(n) => chars_of(n.as_str()),
                    None => chars_of("service"),
                };
                push_str(buf, "\nstart_pre() {\n\tebegin \"Setting up cgroups for ");
                push_chars(buf, &name);
                push_str(buf, "\"\n\t/usr/local/bin/compatd cgroup --delegate --user ");
                push_chars(buf, &user);
                push_str(buf, " \"");
                push_chars(buf, &name);
                push_str(buf, "\"\n\teend $?\n}\n");
            }
        },
        None => {},
    }
    assert(buf@ =~= old(buf)@ + delegate_part(svc@));
}

#[verifier::rlimit(30)]
fn push_functions(buf: &mut Vec<char>, svc: &Service)
    ensures
        final(buf)@ == old(buf)@ + functions_part(svc@),
{
    let name = match &svc.description {
        Some(n) => chars_of(n.as_str()),
        None => chars_of("service"),
    };
    match &svc.exec_reload {
        Some(c) => {
            push_str(buf, "\nreload() {\n\tebegin \"Reloading ");
            push_chars(buf, &name);
            push_str(buf, "\"\n\t");
            push_string(buf, c);
            push_str(buf, "\n\teend $?\n}\n");
        },
        None => {},
    }
    match &svc.exec_stop {
        Some(c) => {
            push_str(buf, "\nstop() {\n\tebegin \"Stopping ");
            push_chars(buf, &name);
            push_str(buf, "\"\n\t");
            push_string(buf, c);
            push_str(buf, "\n\teend $?\n}\n");
        },
        None => {},
    }
    assert(buf@ =~= old(buf)@ + functions_part(svc@));
}

/// Writes the OpenRC init script for `svc`.
pub fn generate(svc: &Service) -> (out: String)
    ensures
        out@ == openrc_script(svc@),
{
    let mut buf: Vec<char> = Vec::new();
    push_header(&mut buf, svc);
    push_environment(&mut buf, svc);
    push_command(&mut buf, svc);
    push_settings(&mut buf, svc);
    push_delegate(&mut buf, svc);
    push_functions(&mut buf, svc);
    assert(buf@ =~= openrc_script(svc@));
    string_of(&buf)
}

// ---------------------------------------------------------------------------
// The script as lines
// ---------------------------------------------------------------------------
/// Each of `xs` between `pre` and `post`, one line each.
pub open spec fn framed_lines(xs: Seq<Seq<char>>, pre: Seq<char>, post: Seq<char>) -> Seq<
    Seq<char>,
> {
    xs.map_values(|x: Seq<char>| pre + x + post)
}

/// The first lines of the script: the shebang, the description, the
/// preload of the shim library, the exported variables and the sourced
/// environment files, each group followed by a blank line.
pub open spec fn opening_lines(v: ServiceView) -> Seq<Seq<char>> {
    let description = match v.description {
        Some(d) => seq!["description=\""@ + d + "\""@, Seq::<char>::empty()],
        None => seq![],
    };
    let gap = if v.environment.len() > 0 || v.environment_file.len() > 0 {
        seq![Seq::<char>::empty()]
    } else {
        seq![]
    };
    seq!["#!/sbin/openrc-run"@, Seq::<char>::empty()] + description + seq![
        "export LD_PRELOAD=\"/usr/lib/compatd/libcompatd_preload.so${LD_PRELOAD:+:$LD_PRELOAD}\""@,
        Seq::<char>::empty(),
    ] + framed_lines(v.environment, "export "@, seq![]) + framed_lines(
        v.environment_file,
        ". \""@,
        "\""@,
    ) + gap
}

/// The `command=` line, and when the command has arguments, the
/// `command_args=` line and a last `command=` line with the program alone.
pub open spec fn command_lines(v: ServiceView) -> Seq<Seq<char>> {
    let cmd = command_of(v);
    let first = seq!["command=\""@ + cmd + "\""@];
    match command_args(cmd) {
        Some(args) => first + seq![
            "command_args=\""@ + args + "\""@,
            "command=\""@ + words(cmd)[0] + "\""@,
        ],
        None => first,
    }
}

/// The `command_user=` line: the user, or else `:` and the group.
pub open spec fn user_lines(v: ServiceView) -> Seq<Seq<char>> {
    match v.user {
        Some(u) => seq!["command_user=\""@ + u + "\""@],
        None => match v.group {
            Some(g) => seq!["command_user=\":"@ + g + "\""@],
            None => seq![],
        },
    }
}

/// The line `key"value"` when `o` holds a value.
pub open spec fn setting_lines(key: Seq<char>, o: Option<Seq<char>>) -> Seq<Seq<char>> {
    match o {
        Some(x) => seq![key + x + "\""@],
        None => seq![],
    }
}

/// Whether the service is restarted by a supervisor.
pub open spec fn is_supervised(v: ServiceView) -> bool {
    v.restart == Some("always"@) || v.restart == Some("on-failure"@)
}

/// The line that asks for the supervisor.
pub open spec fn supervisor_line() -> Seq<char> {
    "supervisor=\"supervise-daemon\""@
}

/// The settings: user, pid file, directory and supervisor.
pub open spec fn settings_lines(v: ServiceView) -> Seq<Seq<char>> {
    let supervisor = if is_supervised(v) {
        seq![supervisor_line()]
    } else {
        seq![]
    };
    user_lines(v) + setting_lines("pidfile=\""@, v.pid_file) + setting_lines(
        "directory=\""@,
        v.working_directory,
    ) + supervisor
}

/// Whether the service asks for a delegated cgroup.
pub open spec fn is_delegated(v: ServiceView) -> bool {
    v.delegate == Some("yes"@) || v.delegate == Some("container"@)
}

/// The `start_pre` function that sets up a delegated cgroup, after a blank line.
pub open spec fn delegate_lines(v: ServiceView) -> Seq<Seq<char>> {
    let user = match v.user {
        Some(u) => u,
        None => "root"@,
    };
    let name = display_name(v);
    if is_delegated(v) {
        seq![
            Seq::<char>::empty(),
            "start_pre() {"@,
            "\tebegin \"Setting up cgroups for "@ + name + "\""@,
            "\t/usr/local/bin/compatd cgroup --delegate --user "@ + user + " \""@ + name + "\""@,
            "\teend $?"@,
            "}"@,
        ]
    } else {
        seq![]
    }
}

/// A shell function `head` that announces `message` and runs `body`, after
/// a blank line.
pub open spec fn function_lines(head: Seq<char>, message: Seq<char>, body: Seq<char>) -> Seq<
    Seq<char>,
> {
    seq![
        Seq::<char>::empty(),
        head,
        "\tebegin \""@ + message + "\""@,
        "\t"@ + body,
        "\teend $?"@,
        "}"@,
    ]
}

/// The `reload` function, when the service has a reload command.
pub open spec fn reload_lines(v: ServiceView) -> Seq<Seq<char>> {
    match v.exec_reload {
        Some(c) => function_lines("reload() {"@, "Reloading "@ + display_name(v), c),
        None => seq![],
    }
}

/// The `stop` function, when the service has a stop command.
pub open spec fn stop_lines(v: ServiceView) -> Seq<Seq<char>> {
    match v.exec_stop {
        Some(c) => function_lines("stop() {"@, "Stopping "@ + display_name(v), c),
        None => seq![],
    }
}

/// The lines of the OpenRC init script for `v`.
pub open spec fn script_lines(v: ServiceView) -> Seq<Seq<char>> {
    opening_lines(v) + command_lines(v) + settings_lines(v) + delegate_lines(v) + reload_lines(v)
        + stop_lines(v)
}

proof fn lemma_terminated_two(a: Seq<char>, b: Seq<char>)
    ensures
        terminated(seq![a, b]) == a + seq!['\n'] + b + seq!['\n'],
{
    lemma_terminated_concat(seq![a], seq![b]);
    lemma_terminated_one(a);
    lemma_terminated_one(b);
    assert(seq![a] + seq![b] =~= seq![a, b]);
    assert(a + seq!['\n'] + (b + seq!['\n']) =~= a + seq!['\n'] + b + seq!['\n']);
}

proof fn lemma_terminated_six(ls: Seq<Seq<char>>)
    requires
        ls.len() == 6,
    ensures
        terminated(ls) == ls[0] + seq!['\n'] + ls[1] + seq!['\n'] + ls[2] + seq!['\n'] + ls[3]
            + seq!['\n'] + ls[4] + seq!['\n'] + ls[5] + seq!['\n'],
{
    let a = seq![ls[0], ls[1]];
    let b = seq![ls[2], ls[3]];
    let c = seq![ls[4], ls[5]];
    lemma_terminated_concat(a + b, c);
    lemma_terminated_concat(a, b);
    lemma_terminated_two(ls[0], ls[1]);
    lemma_terminated_two(ls[2], ls[3]);
    lemma_terminated_two(ls[4], ls[5]);
    assert(a + b + c =~= ls);
    let nl = seq!['\n'];
    assert(ls[0] + nl + ls[1] + nl + (ls[2] + nl + ls[3] + nl) + (ls[4] + nl + ls[5] + nl)
        =~= ls[0] + nl + ls[1] + nl + ls[2] + nl + ls[3] + nl + ls[4] + nl + ls[5] + nl);
}

proof fn lemma_framed_text(xs: Seq<Seq<char>>, pre: Seq<char>, post: Seq<char>)
    ensures
        terminated(framed_lines(xs, pre, post)) == framed(xs, pre, post + seq!['\n']),
    decreases xs.len(),
{
    if xs.len() > 0 {
        lemma_framed_text(xs.drop_last(), pre, post);
        let f = framed_lines(xs, pre, post);
        assert(f.drop_last() =~= framed_lines(xs.drop_last(), pre, post));
        assert(f.last() == pre + xs.last() + post);
        assert(terminated(f) == terminated(f.drop_last()) + f.last() + seq!['\n']);
        assert(framed(xs.drop_last(), pre, post + seq!['\n']) + (pre + xs.last() + post) + seq![
            '\n',
        ] =~= framed(xs.drop_last(), pre, post + seq!['\n']) + pre + xs.last() + (post + seq![
            '\n',
        ]));
    } else {
        assert(framed_lines(xs, pre, post) =~= Seq::<Seq<char>>::empty());
    }
}

proof fn lemma_opening_text(v: ServiceView)
    ensures
        terminated(opening_lines(v)) == header_part(v) + environment_part(v),
{
    let nl = seq!['\n'];
    reveal_strlit("#!/sbin/openrc-run\n\n");
    reveal_strlit("#!/sbin/openrc-run");
    reveal_strlit("\"\n\n");
    reveal_strlit("\"");
    reveal_strlit("\n");
    reveal_strlit("\"\n");
    reveal_strlit(
        "export LD_PRELOAD=\"/usr/lib/compatd/libcompatd_preload.so${LD_PRELOAD:+:$LD_PRELOAD}\"\n\n",
    );
    reveal_strlit(
        "export LD_PRELOAD=\"/usr/lib/compatd/libcompatd_preload.so${LD_PRELOAD:+:$LD_PRELOAD}\"",
    );
    let e = Seq::<char>::empty();
    let shebang = "#!/sbin/openrc-run"@;
    let preload =
        "export LD_PRELOAD=\"/usr/lib/compatd/libcompatd_preload.so${LD_PRELOAD:+:$LD_PRELOAD}\""@;
    let description = match v.description {
        Some(d) => seq!["description=\""@ + d + "\""@, e],
        None => seq![],
    };
    let gap = if v.environment.len() > 0 || v.environment_file.len() > 0 {
        seq![e]
    } else {
        seq![]
    };
    let envs = framed_lines(v.environment, "export "@, seq![]);
    let files = framed_lines(v.environment_file, ". \""@, "\""@);
    let a = seq![shebang, e];
    let c = seq![preload, e];
    lemma_terminated_concat(a + description + c + envs + files, gap);
    lemma_terminated_concat(a + description + c + envs, files);
    lemma_terminated_concat(a + description + c, envs);
    lemma_terminated_concat(a + description, c);
    lemma_terminated_concat(a, description);
    lemma_terminated_two(shebang, e);
    lemma_terminated_two(preload, e);
    assert(terminated(a) =~= "#!/sbin/openrc-run\n\n"@);
    assert(terminated(c) =~= "export LD_PRELOAD=\"/usr/lib/compatd/libcompatd_preload.so${LD_PRELOAD:+:$LD_PRELOAD}\"\n\n"@);
    match v.description {
        Some(d) => {
            lemma_terminated_two("description=\""@ + d + "\""@, e);
            assert(terminated(description) =~= "description=\""@ + d + "\"\n\n"@);
        },
        None => {},
    }
    lemma_framed_text(v.environment, "export "@, seq![]);
    lemma_framed_text(v.environment_file, ". \""@, "\""@);
    assert(Seq::<char>::empty() + nl =~= "\n"@);
    assert("\""@ + nl =~= "\"\n"@);
    if v.environment.len() > 0 || v.environment_file.len() > 0 {
        lemma_terminated_one(e);
        assert(terminated(gap) =~= "\n"@);
    }
}

proof fn lemma_command_text(v: ServiceView)
    ensures
        terminated(command_lines(v)) == command_part(v),
{
    reveal_strlit("\"\n");
    reveal_strlit("\"");
    let cmd = command_of(v);
    let first = "command=\""@ + cmd + "\""@;
    lemma_terminated_one(first);
    assert("\""@ + seq!['\n'] =~= "\"\n"@);
    match command_args(cmd) {
        Some(args) => {
            let l1 = "command_args=\""@ + args + "\""@;
            let l2 = "command=\""@ + words(cmd)[0] + "\""@;
            lemma_terminated_concat(seq![first], seq![l1, l2]);
            lemma_terminated_two(l1, l2);
            assert(seq![first] + seq![l1, l2] =~= command_lines(v));
        },
        None => {},
    }
}

proof fn lemma_setting_text(key: Seq<char>, o: Option<Seq<char>>)
    ensures
        terminated(setting_lines(key, o)) == match o {
            Some(x) => key + x + "\"\n"@,
            None => seq![],
        },
{
    reveal_strlit("\"\n");
    reveal_strlit("\"");
    match o {
        Some(x) => {
            lemma_terminated_one(key + x + "\""@);
            assert(key + x + "\""@ + seq!['\n'] =~= key + x + "\"\n"@);
        },
        None => {},
    }
}

proof fn lemma_settings_text(v: ServiceView)
    ensures
        terminated(settings_lines(v)) == settings_part(v),
{
    reveal_strlit("\"\n");
    reveal_strlit("\"");
    reveal_strlit("supervisor=\"supervise-daemon\"\n");
    reveal_strlit("supervisor=\"supervise-daemon\"");
    let supervisor = if is_supervised(v) {
        seq![supervisor_line()]
    } else {
        seq![]
    };
    let u = user_lines(v);
    let p = setting_lines("pidfile=\""@, v.pid_file);
    let d = setting_lines("directory=\""@, v.working_directory);
    lemma_terminated_concat(u + p + d, supervisor);
    lemma_terminated_concat(u + p, d);
    lemma_terminated_concat(u, p);
    lemma_setting_text("pidfile=\""@, v.pid_file);
    lemma_setting_text("directory=\""@, v.working_directory);
    match v.user {
        Some(x) => lemma_setting_text("command_user=\""@, v.user),
        None => lemma_setting_text("command_user=\":"@, v.group),
    }
    if is_supervised(v) {
        lemma_terminated_one(supervisor_line());
        assert(supervisor_line() + seq!['\n'] =~= "supervisor=\"supervise-daemon\"\n"@);
    }
}

proof fn lemma_function_text(head: Seq<char>, message: Seq<char>, body: Seq<char>)
    ensures
        terminated(function_lines(head, message, body)) == seq!['\n'] + head + seq!['\n']
            + "\tebegin \""@ + message + "\"\n\t"@ + body + "\n\teend $?\n}\n"@,
{
    reveal_strlit("\tebegin \"");
    reveal_strlit("\"");
    reveal_strlit("\"\n\t");
    reveal_strlit("\t");
    reveal_strlit("\n\teend $?\n}\n");
    reveal_strlit("\teend $?");
    reveal_strlit("}");
    let f = function_lines(head, message, body);
    lemma_terminated_six(f);
    let nl = seq!['\n'];
    assert(Seq::<char>::empty() + nl + head + nl + ("\tebegin \""@ + message + "\""@) + nl + (
    "\t"@ + body) + nl + "\teend $?"@ + nl + "}"@ + nl =~= nl + head + nl + "\tebegin \""@
        + message + "\"\n\t"@ + body + "\n\teend $?\n}\n"@);
}

proof fn lemma_blocks_text(v: ServiceView)
    ensures
        terminated(delegate_lines(v)) == delegate_part(v),
        terminated(reload_lines(v) + stop_lines(v)) == functions_part(v),
{
    let nl = seq!['\n'];
    let name = display_name(v);
    if is_delegated(v) {
        reveal_strlit("\nstart_pre() {\n\tebegin \"Setting up cgroups for ");
        reveal_strlit("start_pre() {");
        reveal_strlit("\tebegin \"Setting up cgroups for ");
        reveal_strlit("\"\n\t/usr/local/bin/compatd cgroup --delegate --user ");
        reveal_strlit("\t/usr/local/bin/compatd cgroup --delegate --user ");
        reveal_strlit("\"");
        reveal_strlit(" \"");
        reveal_strlit("\"\n\teend $?\n}\n");
        reveal_strlit("\teend $?");
        reveal_strlit("}");
        let user = match v.user {
            Some(u) => u,
            None => "root"@,
        };
        lemma_terminated_six(delegate_lines(v));
        let begin = "\tebegin \"Setting up cgroups for "@ + name + "\""@;
        let run = "\t/usr/local/bin/compatd cgroup --delegate --user "@ + user + " \""@ + name
            + "\""@;
        assert(Seq::<char>::empty() + nl + "start_pre() {"@ + nl + begin + nl + run + nl
            + "\teend $?"@ + nl + "}"@ + nl
            =~= "\nstart_pre() {\n\tebegin \"Setting up cgroups for "@ + name
                + "\"\n\t/usr/local/bin/compatd cgroup --delegate --user "@ + user + " \""@ + name
                + "\"\n\teend $?\n}\n"@);
    }
    lemma_terminated_concat(reload_lines(v), stop_lines(v));
    reveal_strlit("\tebegin \"");
    reveal_strlit("\n\teend $?\n}\n");
    match v.exec_reload {
        Some(c) => {
            reveal_strlit("\nreload() {\n\tebegin \"Reloading ");
            reveal_strlit("reload() {");
            reveal_strlit("Reloading ");
            lemma_function_text("reload() {"@, "Reloading "@ + name, c);
            assert(nl + "reload() {"@ + nl + "\tebegin \""@ + ("Reloading "@ + name) + "\"\n\t"@ + c
                + "\n\teend $?\n}\n"@ =~= "\nreload() {\n\tebegin \"Reloading "@ + name + "\"\n\t"@
                + c + "\n\teend $?\n}\n"@);
        },
        None => {},
    }
    match v.exec_stop {
        Some(c) => {
            reveal_strlit("\nstop() {\n\tebegin \"Stopping ");
            reveal_strlit("stop() {");
            reveal_strlit("Stopping ");
            lemma_function_text("stop() {"@, "Stopping "@ + name, c);
            assert(nl + "stop() {"@ + nl + "\tebegin \""@ + ("Stopping "@ + name) + "\"\n\t"@ + c
                + "\n\teend $?\n}\n"@ =~= "\nstop() {\n\tebegin \"Stopping "@ + name + "\"\n\t"@ + c
                + "\n\teend $?\n}\n"@);
        },
        None => {},
    }
}

/// The text of the lines of the script, each ended by a newline, is the
/// script.
pub proof fn lemma_script_text(v: ServiceView)
    ensures
        terminated(script_lines(v)) == openrc_script(v),
{
    lemma_opening_text(v);
    lemma_command_text(v);
    lemma_settings_text(v);
    lemma_blocks_text(v);
    let a = opening_lines(v);
    let b = command_lines(v);
    let c = settings_lines(v);
    let d = delegate_lines(v);
    let e = reload_lines(v) + stop_lines(v);
    assert(script_lines(v) =~= a + b + c + d + e);
    lemma_terminated_concat(a + b + c + d, e);
    lemma_terminated_concat(a + b + c, d);
    lemma_terminated_concat(a + b, c);
    lemma_terminated_concat(a, b);
}

/// Whether the values that the script writes can stand in its lines: none
/// holds a line break, and those that end a line (the exported variables and
/// the reload and stop commands) do not end with `'\r'`.
pub open spec fn is_plain_service(v: ServiceView) -> bool {
    &&& (v.description matches Some(d) ==> no_newline(d))
    &&& (v.exec_start matches Some(c) ==> no_newline(c))
    &&& (v.user matches Some(u) ==> no_newline(u))
    &&& (v.group matches Some(g) ==> no_newline(g))
    &&& (v.pid_file matches Some(p) ==> no_newline(p))
    &&& (v.working_directory matches Some(w) ==> no_newline(w))
    &&& (v.exec_reload matches Some(c) ==> is_plain_line(c))
    &&& (v.exec_stop matches Some(c) ==> is_plain_line(c))
    &&& forall|i: int| 0 <= i < v.environment.len() ==> is_plain_line(#[trigger] v.environment[i])
    &&& forall|i: int|
        0 <= i < v.environment_file.len() ==> no_newline(#[trigger] v.environment_file[i])
}

proof fn lemma_words_scan_plain(s: Seq<char>)
    ensures
        forall|i: int, j: int|
            0 <= i < words_scan(s).0.len() && 0 <= j < words_scan(s).0[i].len() ==> !is_ws(
                #[trigger] words_scan(s).0[i][j],
            ),
        forall|j: int| 0 <= j < words_scan(s).1.len() ==> !is_ws(#[trigger] words_scan(s).1[j]),
    decreases s.len(),
{
    if s.len() > 0 {
        lemma_words_scan_plain(s.drop_last());
        let (done, cur) = words_scan(s.drop_last());
        if is_ws(s.last()) {
            if cur.len() > 0 {
                let d = done.push(cur);
                assert forall|i: int, j: int| 0 <= i < d.len() && 0 <= j < d[i].len() implies !is_ws(
                    #[trigger] d[i][j],
                ) by {
                    if i < done.len() {
                        assert(d[i] == done[i]);
                        assert(!is_ws(done[i][j]));
                    } else {
                        assert(d[i] == cur);
                        assert(!is_ws(cur[j]));
                    }
                }
            }
        } else {
            let c = cur.push(s.last());
            assert forall|j: int| 0 <= j < c.len() implies !is_ws(#[trigger] c[j]) by {
                if j < cur.len() {
                    assert(c[j] == cur[j]);
                }
            }
        }
    }
}

/// The words of a text hold no whitespace, a line break least of all.
proof fn lemma_words_plain(s: Seq<char>)
    ensures
        forall|i: int| 0 <= i < words(s).len() ==> no_newline(#[trigger] words(s)[i]),
{
    lemma_words_scan_plain(s);
    let (done, cur) = words_scan(s);
    assert(is_ws('\n'));
    assert forall|i: int| 0 <= i < words(s).len() implies no_newline(#[trigger] words(s)[i]) by {
        let w = words(s)[i];
        if i < done.len() {
            assert(w == done[i]);
            assert forall|j: int| 0 <= j < w.len() implies w[j] != '\n' by {
                assert(!is_ws(done[i][j]));
            }
        } else {
            assert(w == cur);
            assert forall|j: int| 0 <= j < w.len() implies w[j] != '\n' by {
                assert(!is_ws(cur[j]));
            }
        }
    }
}

proof fn lemma_join_no_newline(items: Seq<Seq<char>>, sep: Seq<char>)
    requires
        no_newline(sep),
        forall|i: int| 0 <= i < items.len() ==> no_newline(#[trigger] items[i]),
    ensures
        no_newline(join_with(items, sep)),
    decreases items.len(),
{
    if items.len() == 1 {
        assert(no_newline(items[0]));
    } else if items.len() > 1 {
        let p = items.drop_last();
        assert forall|i: int| 0 <= i < p.len() implies no_newline(#[trigger] p[i]) by {
            assert(p[i] == items[i]);
        }
        lemma_join_no_newline(p, sep);
        assert(no_newline(items[items.len() - 1]));
        lemma_concat_no_newline(join_with(p, sep), sep);
        lemma_concat_no_newline(join_with(p, sep) + sep, items.last());
    }
}

/// A line made of the literal `pre`, the value `x` and a closing quote.
proof fn lemma_quoted_line(pre: Seq<char>, x: Seq<char>)
    requires
        no_newline(pre),
        no_newline(x),
    ensures
        is_plain_line(pre + x + "\""@),
{
    reveal_strlit("\"");
    lemma_concat_no_newline(pre, x);
    lemma_concat_no_newline(pre + x, "\""@);
}

/// A line made of the literal `pre` and the value `x`, which ends it.
proof fn lemma_open_line(pre: Seq<char>, x: Seq<char>)
    requires
        no_newline(pre),
        is_plain_line(x),
        pre.len() > 0,
        pre.last() != '\r',
    ensures
        is_plain_line(pre + x),
{
    lemma_concat_no_newline(pre, x);
}

proof fn lemma_all_plain(a: Seq<Seq<char>>, b: Seq<Seq<char>>)
    requires
        forall|i: int| 0 <= i < a.len() ==> is_plain_line(#[trigger] a[i]),
        forall|i: int| 0 <= i < b.len() ==> is_plain_line(#[trigger] b[i]),
    ensures
        forall|i: int| 0 <= i < (a + b).len() ==> is_plain_line(#[trigger] (a + b)[i]),
{
    assert forall|i: int| 0 <= i < (a + b).len() implies is_plain_line(#[trigger] (a + b)[i]) by {
        if i < a.len() {
            assert((a + b)[i] == a[i]);
        } else {
            assert((a + b)[i] == b[i - a.len()]);
        }
    }
}

proof fn lemma_opening_plain(v: ServiceView)
    requires
        is_plain_service(v),
    ensures
        forall|i: int|
            0 <= i < opening_lines(v).len() ==> is_plain_line(#[trigger] opening_lines(v)[i]),
{
    reveal_strlit("#!/sbin/openrc-run");
    reveal_strlit("description=\"");
    reveal_strlit(
        "export LD_PRELOAD=\"/usr/lib/compatd/libcompatd_preload.so${LD_PRELOAD:+:$LD_PRELOAD}\"",
    );
    reveal_strlit("export ");
    reveal_strlit(". \"");
    let e = Seq::<char>::empty();
    let shebang = "#!/sbin/openrc-run"@;
    let preload =
        "export LD_PRELOAD=\"/usr/lib/compatd/libcompatd_preload.so${LD_PRELOAD:+:$LD_PRELOAD}\""@;
    let description = match v.description {
        Some(d) => seq!["description=\""@ + d + "\""@, e],
        None => seq![],
    };
    let gap = if v.environment.len() > 0 || v.environment_file.len() > 0 {
        seq![e]
    } else {
        seq![]
    };
    let envs = framed_lines(v.environment, "export "@, seq![]);
    let files = framed_lines(v.environment_file, ". \""@, "\""@);
    let a = seq![shebang, e];
    let c = seq![preload, e];
    assert(is_plain_line(shebang));
    assert(is_plain_line(preload));
    assert(forall|i: int| 0 <= i < a.len() ==> is_plain_line(#[trigger] a[i]));
    assert(forall|i: int| 0 <= i < c.len() ==> is_plain_line(#[trigger] c[i]));
    assert(forall|i: int| 0 <= i < gap.len() ==> is_plain_line(#[trigger] gap[i]));
    match v.description {
        Some(d) => {
            lemma_quoted_line("description=\""@, d);
        },
        None => {},
    }
    assert(forall|i: int| 0 <= i < description.len() ==> is_plain_line(#[trigger] description[i]));
    assert forall|i: int| 0 <= i < envs.len() implies is_plain_line(#[trigger] envs[i]) by {
        assert(is_plain_line(v.environment[i]));
        lemma_open_line("export "@, v.environment[i]);
        assert("export "@ + v.environment[i] + seq![] =~= "export "@ + v.environment[i]);
    }
    assert forall|i: int| 0 <= i < files.len() implies is_plain_line(#[trigger] files[i]) by {
        assert(no_newline(v.environment_file[i]));
        lemma_quoted_line(". \""@, v.environment_file[i]);
    }
    lemma_all_plain(a, description);
    lemma_all_plain(a + description, c);
    lemma_all_plain(a + description + c, envs);
    lemma_all_plain(a + description + c + envs, files);
    lemma_all_plain(a + description + c + envs + files, gap);
}

proof fn lemma_rest_plain(v: ServiceView)
    requires
        is_plain_service(v),
    ensures
        forall|i: int|
            0 <= i < command_lines(v).len() ==> is_plain_line(#[trigger] command_lines(v)[i]),
        forall|i: int|
            0 <= i < settings_lines(v).len() ==> is_plain_line(#[trigger] settings_lines(v)[i]),
        forall|i: int|
            0 <= i < delegate_lines(v).len() ==> is_plain_line(#[trigger] delegate_lines(v)[i]),
        forall|i: int|
            0 <= i < reload_lines(v).len() ==> is_plain_line(#[trigger] reload_lines(v)[i]),
        forall|i: int| 0 <= i < stop_lines(v).len() ==> is_plain_line(#[trigger] stop_lines(v)[i]),
{
    reveal_strlit("/bin/false");
    reveal_strlit("command=\"");
    reveal_strlit("command_args=\"");
    reveal_strlit("command_user=\"");
    reveal_strlit("command_user=\":");
    reveal_strlit("pidfile=\"");
    reveal_strlit("directory=\"");
    reveal_strlit("supervisor=\"supervise-daemon\"");
    reveal_strlit(" ");
    let cmd = command_of(v);
    assert(no_newline(cmd));
    lemma_quoted_line("command=\""@, cmd);
    match command_args(cmd) {
        Some(args) => {
            let ws = words(cmd);
            lemma_words_plain(cmd);
            let rest = ws.skip(1);
            assert forall|i: int| 0 <= i < rest.len() implies no_newline(#[trigger] rest[i]) by {
                assert(rest[i] == ws[i + 1]);
            }
            lemma_join_no_newline(rest, seq![' ']);
            lemma_quoted_line("command_args=\""@, args);
            assert(no_newline(ws[0]));
            lemma_quoted_line("command=\""@, ws[0]);
        },
        None => {},
    }
    match v.user {
        Some(u) => lemma_quoted_line("command_user=\""@, u),
        None => match v.group {
            Some(g) => lemma_quoted_line("command_user=\":"@, g),
            None => {},
        },
    }
    match v.pid_file {
        Some(x) => lemma_quoted_line("pidfile=\""@, x),
        None => {},
    }
    match v.working_directory {
        Some(x) => lemma_quoted_line("directory=\""@, x),
        None => {},
    }
    assert(is_plain_line(supervisor_line()));
    lemma_all_plain(user_lines(v), setting_lines("pidfile=\""@, v.pid_file));
    lemma_all_plain(
        user_lines(v) + setting_lines("pidfile=\""@, v.pid_file),
        setting_lines("directory=\""@, v.working_directory),
    );
    let supervisor = if is_supervised(v) {
        seq![supervisor_line()]
    } else {
        seq![]
    };
    lemma_all_plain(
        user_lines(v) + setting_lines("pidfile=\""@, v.pid_file) + setting_lines(
            "directory=\""@,
            v.working_directory,
        ),
        supervisor,
    );
    lemma_blocks_plain(v);
}

proof fn lemma_function_plain(head: Seq<char>, message: Seq<char>, body: Seq<char>)
    requires
        is_plain_line(head),
        no_newline(message),
        is_plain_line(body),
    ensures
        forall|i: int|
            0 <= i < function_lines(head, message, body).len() ==> is_plain_line(
                #[trigger] function_lines(head, message, body)[i],
            ),
{
    reveal_strlit("\tebegin \"");
    reveal_strlit("\t");
    reveal_strlit("\teend $?");
    reveal_strlit("}");
    lemma_quoted_line("\tebegin \""@, message);
    lemma_open_line("\t"@, body);
    assert(is_plain_line("\teend $?"@));
    assert(is_plain_line("}"@));
}

proof fn lemma_blocks_plain(v: ServiceView)
    requires
        is_plain_service(v),
    ensures
        forall|i: int|
            0 <= i < delegate_lines(v).len() ==> is_plain_line(#[trigger] delegate_lines(v)[i]),
        forall|i: int|
            0 <= i < reload_lines(v).len() ==> is_plain_line(#[trigger] reload_lines(v)[i]),
        forall|i: int| 0 <= i < stop_lines(v).len() ==> is_plain_line(#[trigger] stop_lines(v)[i]),
{
    reveal_strlit("service");
    reveal_strlit("root");
    reveal_strlit("Reloading ");
    reveal_strlit("Stopping ");
    reveal_strlit("reload() {");
    reveal_strlit("stop() {");
    let name = display_name(v);
    assert(no_newline(name));
    if is_delegated(v) {
        reveal_strlit("start_pre() {");
        reveal_strlit("\tebegin \"Setting up cgroups for ");
        reveal_strlit("\t/usr/local/bin/compatd cgroup --delegate --user ");
        reveal_strlit(" \"");
        reveal_strlit("\teend $?");
        reveal_strlit("}");
        let user = match v.user {
            Some(u) => u,
            None => "root"@,
        };
        assert(no_newline(user));
        lemma_quoted_line("\tebegin \"Setting up cgroups for "@, name);
        let pre = "\t/usr/local/bin/compatd cgroup --delegate --user "@;
        lemma_concat_no_newline(pre, user);
        lemma_concat_no_newline(pre + user, " \""@);
        lemma_quoted_line(pre + user + " \""@, name);
        assert(is_plain_line("start_pre() {"@));
        assert(is_plain_line("\teend $?"@));
        assert(is_plain_line("}"@));
    }
    match v.exec_reload {
        Some(c) => {
            lemma_concat_no_newline("Reloading "@, name);
            lemma_function_plain("reload() {"@, "Reloading "@ + name, c);
        },
        None => {},
    }
    match v.exec_stop {
        Some(c) => {
            lemma_concat_no_newline("Stopping "@, name);
            lemma_function_plain("stop() {"@, "Stopping "@ + name, c);
        },
        None => {},
    }
}

/// Reading the lines of the script gives back [`script_lines`], when the
/// values that it writes hold no line break and those that end a line do
/// not end with `'\r'`.
pub proof fn lemma_script_lines(v: ServiceView)
    requires
        is_plain_service(v),
    ensures
        lines(openrc_script(v)) == script_lines(v),
{
    lemma_opening_plain(v);
    lemma_rest_plain(v);
    let a = opening_lines(v);
    let b = command_lines(v);
    let c = settings_lines(v);
    let d = delegate_lines(v);
    let e = reload_lines(v);
    let f = stop_lines(v);
    lemma_all_plain(a, b);
    lemma_all_plain(a + b, c);
    lemma_all_plain(a + b + c, d);
    lemma_all_plain(a + b + c + d, e);
    lemma_all_plain(a + b + c + d + e, f);
    lemma_script_text(v);
    lemma_lines_of_terminated(script_lines(v));
}

// ---------------------------------------------------------------------------
// The settings and functions among the lines
// ---------------------------------------------------------------------------
/// The lines of `ls` that begin with `key`, in order.
pub open spec fn lines_with(ls: Seq<Seq<char>>, key: Seq<char>) -> Seq<Seq<char>>
    decreases ls.len(),
{
    if ls.len() == 0 {
        seq![]
    } else if starts_with(ls.last(), key) {
        lines_with(ls.drop_last(), key).push(ls.last())
    } else {
        lines_with(ls.drop_last(), key)
    }
}

proof fn lemma_lines_with_concat(a: Seq<Seq<char>>, b: Seq<Seq<char>>, key: Seq<char>)
    ensures
        lines_with(a + b, key) == lines_with(a, key) + lines_with(b, key),
    decreases b.len(),
{
    if b.len() == 0 {
        assert(a + b =~= a);
        assert(lines_with(a, key) + lines_with(b, key) =~= lines_with(a, key));
    } else {
        assert((a + b).drop_last() =~= a + b.drop_last());
        assert((a + b).last() == b.last());
        lemma_lines_with_concat(a, b.drop_last(), key);
        assert(lines_with(a, key) + lines_with(b.drop_last(), key).push(b.last()) =~= (lines_with(
            a,
            key,
        ) + lines_with(b.drop_last(), key)).push(b.last()));
    }
}

proof fn lemma_lines_with_none(ls: Seq<Seq<char>>, key: Seq<char>)
    requires
        forall|i: int| 0 <= i < ls.len() ==> !starts_with(#[trigger] ls[i], key),
    ensures
        lines_with(ls, key) == Seq::<Seq<char>>::empty(),
    decreases ls.len(),
{
    if ls.len() > 0 {
        let p = ls.drop_last();
        assert forall|i: int| 0 <= i < p.len() implies !starts_with(#[trigger] p[i], key) by {
            assert(p[i] == ls[i]);
        }
        lemma_lines_with_none(p, key);
        assert(!starts_with(ls[ls.len() - 1], key));
    }
}

proof fn lemma_lines_with_one(x: Seq<char>, key: Seq<char>)
    ensures
        lines_with(seq![x], key) == if starts_with(x, key) {
            seq![x]
        } else {
            Seq::<Seq<char>>::empty()
        },
{
    assert(seq![x].drop_last() =~= Seq::<Seq<char>>::empty());
    assert(lines_with(seq![x].drop_last(), key) == Seq::<Seq<char>>::empty());
    assert(seq![x].last() == x);
    assert(Seq::<Seq<char>>::empty().push(x) =~= seq![x]);
}

proof fn lemma_starts_char(l: Seq<char>, t: Seq<char>, k: int)
    requires
        starts_with(l, t),
        0 <= k < t.len(),
    ensures
        l[k] == t[k],
{
    assert(l.take(t.len() as int)[k] == l[k]);
}

/// The text that opens the supervisor setting.
spec fn key_supervisor() -> Seq<char> {
    "supervisor=\""@
}

/// Whether `l` opens none of the settings or functions of the script.
spec fn is_unkeyed(l: Seq<char>) -> bool {
    &&& !starts_with(l, key_supervisor())
    &&& !starts_with(l, "command_user=\""@)
    &&& !starts_with(l, "pidfile=\""@)
    &&& !starts_with(l, "directory=\""@)
    &&& !starts_with(l, "command=\""@)
    &&& !starts_with(l, "command_args=\""@)
    &&& !starts_with(l, "start_pre() {"@)
    &&& !starts_with(l, "reload() {"@)
    &&& !starts_with(l, "stop() {"@)
}

/// What the characters of a line that opens a setting or a function are.
proof fn lemma_key_chars(l: Seq<char>)
    ensures
        starts_with(l, key_supervisor()) ==> l.len() >= 2 && l[0] == 's' && l[1] == 'u',
        starts_with(l, "command_user=\""@) ==> l.len() >= 9 && l[0] == 'c' && l[7] == '_' && l[8]
            == 'u',
        starts_with(l, "pidfile=\""@) ==> l.len() >= 1 && l[0] == 'p',
        starts_with(l, "directory=\""@) ==> l.len() >= 2 && l[0] == 'd' && l[1] == 'i',
        starts_with(l, "command=\""@) ==> l.len() >= 8 && l[0] == 'c' && l[7] == '=',
        starts_with(l, "command_args=\""@) ==> l.len() >= 9 && l[0] == 'c' && l[7] == '_' && l[8]
            == 'a',
        starts_with(l, "start_pre() {"@) ==> l.len() >= 3 && l[0] == 's' && l[1] == 't' && l[2]
            == 'a',
        starts_with(l, "reload() {"@) ==> l.len() >= 1 && l[0] == 'r',
        starts_with(l, "stop() {"@) ==> l.len() >= 3 && l[0] == 's' && l[1] == 't' && l[2] == 'o',
{
    reveal_strlit("supervisor=\"");
    reveal_strlit("command_user=\"");
    reveal_strlit("pidfile=\"");
    reveal_strlit("directory=\"");
    reveal_strlit("command=\"");
    reveal_strlit("command_args=\"");
    reveal_strlit("start_pre() {");
    reveal_strlit("reload() {");
    reveal_strlit("stop() {");
    if starts_with(l, key_supervisor()) {
        lemma_starts_char(l, key_supervisor(), 0);
        lemma_starts_char(l, key_supervisor(), 1);
    }
    if starts_with(l, "command_user=\""@) {
        lemma_starts_char(l, "command_user=\""@, 0);
        lemma_starts_char(l, "command_user=\""@, 7);
        lemma_starts_char(l, "command_user=\""@, 8);
    }
    if starts_with(l, "pidfile=\""@) {
        lemma_starts_char(l, "pidfile=\""@, 0);
    }
    if starts_with(l, "directory=\""@) {
        lemma_starts_char(l, "directory=\""@, 0);
        lemma_starts_char(l, "directory=\""@, 1);
    }
    if starts_with(l, "command=\""@) {
        lemma_starts_char(l, "command=\""@, 0);
        lemma_starts_char(l, "command=\""@, 7);
    }
    if starts_with(l, "command_args=\""@) {
        lemma_starts_char(l, "command_args=\""@, 0);
        lemma_starts_char(l, "command_args=\""@, 7);
        lemma_starts_char(l, "command_args=\""@, 8);
    }
    if starts_with(l, "start_pre() {"@) {
        lemma_starts_char(l, "start_pre() {"@, 0);
        lemma_starts_char(l, "start_pre() {"@, 1);
        lemma_starts_char(l, "start_pre() {"@, 2);
    }
    if starts_with(l, "reload() {"@) {
        lemma_starts_char(l, "reload() {"@, 0);
    }
    if starts_with(l, "stop() {"@) {
        lemma_starts_char(l, "stop() {"@, 0);
        lemma_starts_char(l, "stop() {"@, 1);
        lemma_starts_char(l, "stop() {"@, 2);
    }
}

proof fn lemma_opening_unkeyed(v: ServiceView)
    ensures
        forall|i: int|
            0 <= i < opening_lines(v).len() ==> is_unkeyed(#[trigger] opening_lines(v)[i]),
{
    reveal_strlit("#!/sbin/openrc-run");
    reveal_strlit("description=\"");
    reveal_strlit(
        "export LD_PRELOAD=\"/usr/lib/compatd/libcompatd_preload.so${LD_PRELOAD:+:$LD_PRELOAD}\"",
    );
    reveal_strlit("export ");
    reveal_strlit(". \"");
    let ls = opening_lines(v);
    let e = Seq::<char>::empty();
    let description = match v.description {
        Some(d) => seq!["description=\""@ + d + "\""@, e],
        None => seq![],
    };
    let gap = if v.environment.len() > 0 || v.environment_file.len() > 0 {
        seq![e]
    } else {
        seq![]
    };
    let envs = framed_lines(v.environment, "export "@, seq![]);
    let files = framed_lines(v.environment_file, ". \""@, "\""@);
    let a = seq!["#!/sbin/openrc-run"@, e] + description + seq![
        "export LD_PRELOAD=\"/usr/lib/compatd/libcompatd_preload.so${LD_PRELOAD:+:$LD_PRELOAD}\""@,
        e,
    ];
    assert(ls == a + envs + files + gap);
    assert forall|i: int| 0 <= i < ls.len() implies is_unkeyed(#[trigger] ls[i]) by {
        let l = ls[i];
        lemma_key_chars(l);
        if i < a.len() {
            assert(l == a[i]);
            if l.len() > 0 {
                assert(l[0] == '#' || l[0] == 'e' || (l[0] == 'd' && l[1] == 'e'));
            }
        } else if i < a.len() + envs.len() {
            let x = v.environment[i - a.len()];
            assert(l == "export "@ + x + seq![]);
            assert(l[0] == 'e');
        } else if i < a.len() + envs.len() + files.len() {
            let x = v.environment_file[i - a.len() - envs.len()];
            assert(l == ". \""@ + x + "\""@);
            assert(l[0] == '.');
        } else {
            assert(l == gap[i - a.len() - envs.len() - files.len()]);
            assert(l.len() == 0);
        }
    }
}

proof fn lemma_lines_with_all(ls: Seq<Seq<char>>, key: Seq<char>)
    requires
        forall|i: int| 0 <= i < ls.len() ==> starts_with(#[trigger] ls[i], key),
    ensures
        lines_with(ls, key) == ls,
    decreases ls.len(),
{
    if ls.len() > 0 {
        let p = ls.drop_last();
        assert forall|i: int| 0 <= i < p.len() implies starts_with(#[trigger] p[i], key) by {
            assert(p[i] == ls[i]);
        }
        lemma_lines_with_all(p, key);
        assert(starts_with(ls[ls.len() - 1], key));
        assert(p.push(ls.last()) =~= ls);
    }
}

/// A line made of `key`, a value and a closing quote begins with `key`.
proof fn lemma_keyed_line(key: Seq<char>, x: Seq<char>)
    ensures
        starts_with(key + x + "\""@, key),
        forall|k: int| 0 <= k < key.len() ==> #[trigger] (key + x + "\""@)[k] == key[k],
{
    assert((key + x + "\""@).take(key.len() as int) =~= key);
}

proof fn lemma_command_keys(v: ServiceView)
    ensures
        lines_with(command_lines(v), "command=\""@) == match command_args(command_of(v)) {
            Some(_) => seq![
                "command=\""@ + command_of(v) + "\""@,
                "command=\""@ + words(command_of(v))[0] + "\""@,
            ],
            None => seq!["command=\""@ + command_of(v) + "\""@],
        },
        lines_with(command_lines(v), "command_args=\""@) == match command_args(command_of(v)) {
            Some(args) => seq!["command_args=\""@ + args + "\""@],
            None => Seq::<Seq<char>>::empty(),
        },
        forall|i: int|
            0 <= i < command_lines(v).len() ==> {
                let l = #[trigger] command_lines(v)[i];
                &&& !starts_with(l, key_supervisor())
                &&& !starts_with(l, "command_user=\""@)
                &&& !starts_with(l, "pidfile=\""@)
                &&& !starts_with(l, "directory=\""@)
                &&& !starts_with(l, "start_pre() {"@)
                &&& !starts_with(l, "reload() {"@)
                &&& !starts_with(l, "stop() {"@)
            },
{
    reveal_strlit("command=\"");
    reveal_strlit("command_args=\"");
    let k5 = "command=\""@;
    let k6 = "command_args=\""@;
    let cmd = command_of(v);
    let c0 = k5 + cmd + "\""@;
    lemma_keyed_line(k5, cmd);
    lemma_key_chars(c0);
    assert(c0[0] == 'c' && c0[7] == '=');
    lemma_lines_with_one(c0, k5);
    lemma_lines_with_one(c0, k6);
    match command_args(cmd) {
        Some(args) => {
            let c1 = k6 + args + "\""@;
            let c2 = k5 + words(cmd)[0] + "\""@;
            lemma_keyed_line(k6, args);
            lemma_keyed_line(k5, words(cmd)[0]);
            lemma_key_chars(c1);
            lemma_key_chars(c2);
            assert(c1[0] == 'c' && c1[7] == '_' && c1[8] == 'a');
            assert(c2[0] == 'c' && c2[7] == '=');
            lemma_lines_with_one(c1, k5);
            lemma_lines_with_one(c1, k6);
            lemma_lines_with_one(c2, k5);
            lemma_lines_with_one(c2, k6);
            assert(command_lines(v) =~= seq![c0] + seq![c1] + seq![c2]);
            lemma_lines_with_concat(seq![c0] + seq![c1], seq![c2], k5);
            lemma_lines_with_concat(seq![c0], seq![c1], k5);
            lemma_lines_with_concat(seq![c0] + seq![c1], seq![c2], k6);
            lemma_lines_with_concat(seq![c0], seq![c1], k6);
            assert(seq![c0] + Seq::<Seq<char>>::empty() + seq![c2] =~= seq![c0, c2]);
            assert(Seq::<Seq<char>>::empty() + seq![c1] + Seq::<Seq<char>>::empty() =~= seq![c1]);
        },
        None => {},
    }
}

#[verifier::rlimit(40)]
proof fn lemma_settings_keys(v: ServiceView)
    ensures
        lines_with(settings_lines(v), key_supervisor()) == if is_supervised(v) {
            seq![supervisor_line()]
        } else {
            Seq::<Seq<char>>::empty()
        },
        lines_with(settings_lines(v), "command_user=\""@) == user_lines(v),
        lines_with(settings_lines(v), "pidfile=\""@) == setting_lines("pidfile=\""@, v.pid_file),
        lines_with(settings_lines(v), "directory=\""@) == setting_lines(
            "directory=\""@,
            v.working_directory,
        ),
        forall|i: int|
            0 <= i < settings_lines(v).len() ==> {
                let l = #[trigger] settings_lines(v)[i];
                &&& !starts_with(l, "command=\""@)
                &&& !starts_with(l, "command_args=\""@)
                &&& !starts_with(l, "start_pre() {"@)
                &&& !starts_with(l, "reload() {"@)
                &&& !starts_with(l, "stop() {"@)
            },
{
    reveal_strlit("supervisor=\"");
    reveal_strlit("supervisor=\"supervise-daemon\"");
    reveal_strlit("command_user=\"");
    reveal_strlit("command_user=\":");
    reveal_strlit("pidfile=\"");
    reveal_strlit("directory=\"");
    let k1 = key_supervisor();
    let k2 = "command_user=\""@;
    let k3 = "pidfile=\""@;
    let k4 = "directory=\""@;
    let u = user_lines(v);
    let p = setting_lines(k3, v.pid_file);
    let d = setting_lines(k4, v.working_directory);
    let sup = if is_supervised(v) {
        seq![supervisor_line()]
    } else {
        seq![]
    };
    match v.user {
        Some(x) => {
            lemma_keyed_line(k2, x);
            lemma_key_chars(u[0]);
        },
        None => match v.group {
            Some(g) => {
                let l = "command_user=\":"@ + g + "\""@;
                assert(l.take(k2.len() as int) =~= k2);
                assert(l[0] == 'c' && l[7] == '_' && l[8] == 'u');
                lemma_key_chars(l);
            },
            None => {},
        },
    }
    match v.pid_file {
        Some(x) => {
            lemma_keyed_line(k3, x);
            lemma_key_chars(p[0]);
            assert(p[0][0] == 'p');
        },
        None => {},
    }
    match v.working_directory {
        Some(x) => {
            lemma_keyed_line(k4, x);
            lemma_key_chars(d[0]);
            assert(d[0][0] == 'd' && d[0][1] == 'i');
        },
        None => {},
    }
    if is_supervised(v) {
        assert(supervisor_line().take(k1.len() as int) =~= k1);
        lemma_key_chars(supervisor_line());
        assert(supervisor_line()[0] == 's' && supervisor_line()[1] == 'u');
    }
    lemma_lines_with_all(u, k2);
    lemma_lines_with_none(u, k1);
    lemma_lines_with_none(u, k3);
    lemma_lines_with_none(u, k4);
    lemma_lines_with_all(p, k3);
    lemma_lines_with_none(p, k1);
    lemma_lines_with_none(p, k2);
    lemma_lines_with_none(p, k4);
    lemma_lines_with_all(d, k4);
    lemma_lines_with_none(d, k1);
    lemma_lines_with_none(d, k2);
    lemma_lines_with_none(d, k3);
    lemma_lines_with_all(sup, k1);
    lemma_lines_with_none(sup, k2);
    lemma_lines_with_none(sup, k3);
    lemma_lines_with_none(sup, k4);
    let e = Seq::<Seq<char>>::empty();
    lemma_lines_with_concat(u + p + d, sup, k1);
    lemma_lines_with_concat(u + p, d, k1);
    lemma_lines_with_concat(u, p, k1);
    lemma_lines_with_concat(u + p + d, sup, k2);
    lemma_lines_with_concat(u + p, d, k2);
    lemma_lines_with_concat(u, p, k2);
    lemma_lines_with_concat(u + p + d, sup, k3);
    lemma_lines_with_concat(u + p, d, k3);
    lemma_lines_with_concat(u, p, k3);
    lemma_lines_with_concat(u + p + d, sup, k4);
    lemma_lines_with_concat(u + p, d, k4);
    lemma_lines_with_concat(u, p, k4);
    assert(e + e + e + sup =~= sup);
    assert(u + e + e + e =~= u);
    assert(e + p + e + e =~= p);
    assert(e + e + d + e =~= d);
    let all = settings_lines(v);
    assert(all == u + p + d + sup);
    assert forall|i: int| 0 <= i < all.len() implies {
        let l = #[trigger] all[i];
        &&& !starts_with(l, "command=\""@)
        &&& !starts_with(l, "command_args=\""@)
        &&& !starts_with(l, "start_pre() {"@)
        &&& !starts_with(l, "reload() {"@)
        &&& !starts_with(l, "stop() {"@)
    } by {
        lemma_key_chars(all[i]);
        if i < u.len() {
            assert(all[i] == u[i]);
        } else if i < u.len() + p.len() {
            assert(all[i] == p[i - u.len()]);
        } else if i < u.len() + p.len() + d.len() {
            assert(all[i] == d[i - u.len() - p.len()]);
        } else {
            assert(all[i] == sup[i - u.len() - p.len() - d.len()]);
        }
    }
}

/// The lines of a shell function but its head open no setting or function.
proof fn lemma_block_body_unkeyed(ls: Seq<Seq<char>>)
    requires
        ls.len() == 6,
        ls[0].len() == 0,
        ls[2].len() > 0 && ls[2][0] == '\t',
        ls[3].len() > 0 && ls[3][0] == '\t',
        ls[4].len() > 0 && ls[4][0] == '\t',
        ls[5] == "}"@,
    ensures
        forall|i: int| 0 <= i < ls.len() && i != 1 ==> is_unkeyed(#[trigger] ls[i]),
{
    reveal_strlit("}");
    assert forall|i: int| 0 <= i < ls.len() && i != 1 implies is_unkeyed(#[trigger] ls[i]) by {
        lemma_key_chars(ls[i]);
        if i == 5 {
            assert(ls[5][0] == '}');
        }
    }
}

proof fn lemma_head_keys(ls: Seq<Seq<char>>, head: Seq<char>)
    requires
        ls.len() == 6,
        ls[1] == head,
        is_key(head),
        forall|i: int| 0 <= i < ls.len() && i != 1 ==> is_unkeyed(#[trigger] ls[i]),
    ensures
        lines_with(ls, head) == seq![head],
        forall|key: Seq<char>|
            #![trigger lines_with(ls, key)]
            !starts_with(head, key) && is_key(key) ==> lines_with(ls, key)
                == Seq::<Seq<char>>::empty(),
{
    assert(head.take(head.len() as int) =~= head);
    let a = seq![ls[0]];
    let b = seq![ls[1]];
    let c = seq![ls[2], ls[3], ls[4], ls[5]];
    assert(ls =~= a + b + c);
    assert forall|key: Seq<char>| is_key(key) implies lines_with(a, key)
        == Seq::<Seq<char>>::empty() && lines_with(c, key) == Seq::<Seq<char>>::empty() by {
        assert(is_unkeyed(ls[0]));
        lemma_unkeyed_line(ls[0], key);
        lemma_lines_with_one(ls[0], key);
        assert forall|i: int| 0 <= i < c.len() implies !starts_with(#[trigger] c[i], key) by {
            assert(c[i] == ls[i + 2]);
            assert(is_unkeyed(ls[i + 2]));
            lemma_unkeyed_line(ls[i + 2], key);
        }
        lemma_lines_with_none(c, key);
    }
    assert forall|key: Seq<char>|
        #![trigger lines_with(ls, key)]
        is_key(key) implies lines_with(ls, key) == lines_with(b, key) by {
        lemma_lines_with_concat(a + b, c, key);
        lemma_lines_with_concat(a, b, key);
        assert(Seq::<Seq<char>>::empty() + lines_with(b, key) + Seq::<Seq<char>>::empty()
            =~= lines_with(b, key));
    }
    lemma_lines_with_one(head, head);
    assert forall|key: Seq<char>|
        #![trigger lines_with(ls, key)]
        !starts_with(head, key) && is_key(key) implies lines_with(ls, key)
            == Seq::<Seq<char>>::empty() by {
        lemma_lines_with_one(head, key);
    }
}

/// Whether `key` is one of those that open a setting or a function.
spec fn is_key(key: Seq<char>) -> bool {
    ||| key == key_supervisor()
    ||| key == "command_user=\""@
    ||| key == "pidfile=\""@
    ||| key == "directory=\""@
    ||| key == "command=\""@
    ||| key == "command_args=\""@
    ||| key == "start_pre() {"@
    ||| key == "reload() {"@
    ||| key == "stop() {"@
}

proof fn lemma_unkeyed_line(l: Seq<char>, key: Seq<char>)
    requires
        is_unkeyed(l),
        is_key(key),
    ensures
        !starts_with(l, key),
{
}

#[verifier::rlimit(40)]
proof fn lemma_block_keys(v: ServiceView)
    ensures
        lines_with(delegate_lines(v), "start_pre() {"@) == if is_delegated(v) {
            seq!["start_pre() {"@]
        } else {
            Seq::<Seq<char>>::empty()
        },
        lines_with(reload_lines(v), "reload() {"@) == if v.exec_reload is Some {
            seq!["reload() {"@]
        } else {
            Seq::<Seq<char>>::empty()
        },
        lines_with(stop_lines(v), "stop() {"@) == if v.exec_stop is Some {
            seq!["stop() {"@]
        } else {
            Seq::<Seq<char>>::empty()
        },
        lines_with(delegate_lines(v), "reload() {"@) == Seq::<Seq<char>>::empty(),
        lines_with(delegate_lines(v), "stop() {"@) == Seq::<Seq<char>>::empty(),
        lines_with(reload_lines(v), "start_pre() {"@) == Seq::<Seq<char>>::empty(),
        lines_with(reload_lines(v), "stop() {"@) == Seq::<Seq<char>>::empty(),
        lines_with(stop_lines(v), "start_pre() {"@) == Seq::<Seq<char>>::empty(),
        lines_with(stop_lines(v), "reload() {"@) == Seq::<Seq<char>>::empty(),
        forall|key: Seq<char>|
            #![trigger is_key(key)]
            is_key(key) && key != "start_pre() {"@ && key != "reload() {"@ && key
                != "stop() {"@ ==> {
                &&& lines_with(delegate_lines(v), key) == Seq::<Seq<char>>::empty()
                &&& lines_with(reload_lines(v), key) == Seq::<Seq<char>>::empty()
                &&& lines_with(stop_lines(v), key) == Seq::<Seq<char>>::empty()
            },
{
    reveal_strlit("start_pre() {");
    reveal_strlit("reload() {");
    reveal_strlit("stop() {");
    reveal_strlit("\tebegin \"Setting up cgroups for ");
    reveal_strlit("\t/usr/local/bin/compatd cgroup --delegate --user ");
    reveal_strlit("\tebegin \"");
    reveal_strlit("\t");
    reveal_strlit("\teend $?");
    reveal_strlit("supervisor=\"");
    reveal_strlit("command_user=\"");
    reveal_strlit("pidfile=\"");
    reveal_strlit("directory=\"");
    reveal_strlit("command=\"");
    reveal_strlit("command_args=\"");
    let e = Seq::<Seq<char>>::empty();
    let sp = "start_pre() {"@;
    let rl = "reload() {"@;
    let st = "stop() {"@;
    lemma_key_chars(sp);
    lemma_key_chars(rl);
    lemma_key_chars(st);
    assert(sp[0] == 's' && sp[1] == 't' && sp[2] == 'a');
    assert(rl[0] == 'r');
    assert(st[0] == 's' && st[1] == 't' && st[2] == 'o');
    let d = delegate_lines(v);
    if is_delegated(v) {
        assert(d[2][0] == '\t' && d[3][0] == '\t' && d[4][0] == '\t');
        lemma_block_body_unkeyed(d);
        lemma_head_keys(d, sp);
        assert(is_key(rl) && is_key(st));
        assert(lines_with(d, rl) == e);
        assert(lines_with(d, st) == e);
    }
    let name = display_name(v);
    match v.exec_reload {
        Some(c) => {
            let r = reload_lines(v);
            assert(r[2][0] == '\t' && r[3][0] == '\t' && r[4][0] == '\t');
            lemma_block_body_unkeyed(r);
            lemma_head_keys(r, rl);
            assert(is_key(sp) && is_key(st));
            assert(lines_with(r, sp) == e);
            assert(lines_with(r, st) == e);
        },
        None => {},
    }
    match v.exec_stop {
        Some(c) => {
            let t = stop_lines(v);
            assert(t[2][0] == '\t' && t[3][0] == '\t' && t[4][0] == '\t');
            lemma_block_body_unkeyed(t);
            lemma_head_keys(t, st);
            assert(is_key(sp) && is_key(rl));
            assert(lines_with(t, sp) == e);
            assert(lines_with(t, rl) == e);
        },
        None => {},
    }
    assert forall|key: Seq<char>|
        #![trigger is_key(key)]
        is_key(key) && key != sp && key != rl && key != st implies {
        &&& lines_with(delegate_lines(v), key) == e
        &&& lines_with(reload_lines(v), key) == e
        &&& lines_with(stop_lines(v), key) == e
    } by {
        lemma_key_chars(sp);
        lemma_key_chars(rl);
        lemma_key_chars(st);
        if is_delegated(v) {
            assert(!starts_with(sp, key));
            assert(lines_with(d, key) == e);
        }
        if v.exec_reload is Some {
            assert(!starts_with(rl, key));
            assert(lines_with(reload_lines(v), key) == e);
        }
        if v.exec_stop is Some {
            assert(!starts_with(st, key));
            assert(lines_with(stop_lines(v), key) == e);
        }
    }
}

proof fn lemma_lines_with_contains(ls: Seq<Seq<char>>, key: Seq<char>, x: Seq<char>)
    requires
        starts_with(x, key),
    ensures
        ls.contains(x) <==> lines_with(ls, key).contains(x),
    decreases ls.len(),
{
    if ls.len() > 0 {
        let p = ls.drop_last();
        lemma_lines_with_contains(p, key, x);
        let w = lines_with(p, key);
        if ls.contains(x) {
            let i = choose|i: int| 0 <= i < ls.len() && ls[i] == x;
            if i < p.len() {
                assert(p[i] == x);
                let j = choose|j: int| 0 <= j < w.len() && w[j] == x;
                if starts_with(ls.last(), key) {
                    assert(w.push(ls.last())[j] == x);
                }
            } else {
                assert(lines_with(ls, key).last() == x);
            }
        }
        if lines_with(ls, key).contains(x) {
            let j = choose|j: int|
                0 <= j < lines_with(ls, key).len() && lines_with(ls, key)[j] == x;
            if starts_with(ls.last(), key) && j == w.len() {
                assert(ls[ls.len() - 1] == x);
            } else {
                assert(w[j] == x);
                let i = choose|i: int| 0 <= i < p.len() && p[i] == x;
                assert(ls[i] == x);
            }
        }
    }
}

/// The lines of the script that begin with `key`, part by part.
proof fn lemma_script_keys(v: ServiceView, key: Seq<char>)
    requires
        is_plain_service(v),
        is_key(key),
    ensures
        lines_with(lines(openrc_script(v)), key) == lines_with(command_lines(v), key) + lines_with(
            settings_lines(v),
            key,
        ) + lines_with(delegate_lines(v), key) + lines_with(reload_lines(v), key) + lines_with(
            stop_lines(v),
            key,
        ),
{
    lemma_script_lines(v);
    lemma_opening_unkeyed(v);
    let a = opening_lines(v);
    let b = command_lines(v);
    let c = settings_lines(v);
    let d = delegate_lines(v);
    let e = reload_lines(v);
    let f = stop_lines(v);
    assert forall|i: int| 0 <= i < a.len() implies !starts_with(#[trigger] a[i], key) by {
        lemma_unkeyed_line(a[i], key);
    }
    lemma_lines_with_none(a, key);
    lemma_lines_with_concat(a + b + c + d + e, f, key);
    lemma_lines_with_concat(a + b + c + d, e, key);
    lemma_lines_with_concat(a + b + c, d, key);
    lemma_lines_with_concat(a + b, c, key);
    lemma_lines_with_concat(a, b, key);
    assert(Seq::<Seq<char>>::empty() + lines_with(b, key) =~= lines_with(b, key));
}

/// The keys that open settings are not those that open functions.
proof fn lemma_setting_keys_differ()
    ensures
        forall|k: Seq<char>|
            #![trigger is_key(k)]
            k == key_supervisor() || k == "command_user=\""@ || k == "pidfile=\""@ || k
                == "directory=\""@ || k == "command=\""@ || k == "command_args=\""@ ==> is_key(k)
                && k != "start_pre() {"@ && k != "reload() {"@ && k != "stop() {"@,
{
    reveal_strlit("supervisor=\"");
    reveal_strlit("command_user=\"");
    reveal_strlit("pidfile=\"");
    reveal_strlit("directory=\"");
    reveal_strlit("command=\"");
    reveal_strlit("command_args=\"");
    reveal_strlit("start_pre() {");
    reveal_strlit("reload() {");
    reveal_strlit("stop() {");
    assert(key_supervisor().len() == 12 && "command_user=\""@.len() == 14 && "pidfile=\""@.len()
        == 9 && "directory=\""@.len() == 11 && "command=\""@.len() == 9
        && "command_args=\""@.len() == 14);
    assert("start_pre() {"@.len() == 13 && "reload() {"@.len() == 10 && "stop() {"@.len() == 8);
}

/// The lines of the functions that open a setting: none.
proof fn lemma_functions_unset(v: ServiceView, k: Seq<char>)
    requires
        k == key_supervisor() || k == "command_user=\""@ || k == "pidfile=\""@ || k
            == "directory=\""@ || k == "command=\""@ || k == "command_args=\""@,
    ensures
        lines_with(delegate_lines(v), k) == Seq::<Seq<char>>::empty(),
        lines_with(reload_lines(v), k) == Seq::<Seq<char>>::empty(),
        lines_with(stop_lines(v), k) == Seq::<Seq<char>>::empty(),
{
    lemma_setting_keys_differ();
    assert(is_key(k));
    lemma_block_keys(v);
}

/// The script asks for a supervisor exactly when the service is restarted
/// `always` or `on-failure`: its one `supervisor=` line is then
/// `supervisor="supervise-daemon"`, and otherwise it has none (for values
/// that can stand in its lines, see [`is_plain_service`]).
#[verifier::rlimit(40)]
pub proof fn lemma_openrc_supervisor(v: ServiceView)
    requires
        is_plain_service(v),
    ensures
        lines_with(lines(openrc_script(v)), "supervisor=\""@) == if is_supervised(v) {
            seq![supervisor_line()]
        } else {
            Seq::<Seq<char>>::empty()
        },
        lines(openrc_script(v)).contains(supervisor_line()) <==> is_supervised(v),
{
    let k = key_supervisor();
    let e = Seq::<Seq<char>>::empty();
    let s = lines_with(settings_lines(v), k);
    assert(lines_with(command_lines(v), k) == e) by {
        lemma_command_keys(v);
        lemma_lines_with_none(command_lines(v), k);
    }
    assert(s == if is_supervised(v) {
        seq![supervisor_line()]
    } else {
        e
    }) by {
        lemma_settings_keys(v);
    }
    lemma_functions_unset(v, k);
    assert(is_key(k));
    lemma_script_keys(v, k);
    assert(e + s + e + e + e =~= s);
    assert(starts_with(supervisor_line(), k)) by {
        reveal_strlit("supervisor=\"");
        reveal_strlit("supervisor=\"supervise-daemon\"");
        assert(supervisor_line().take(k.len() as int) =~= k);
    }
    lemma_lines_with_contains(lines(openrc_script(v)), k, supervisor_line());
    if is_supervised(v) {
        assert(s[0] == supervisor_line());
    }
}

/// The script names the command in a `command=` line right after its
/// opening lines. When the command has two words or more, that line is
/// followed by a `command_args=` line with the words after the first, and
/// by a last `command=` line with the first word alone; otherwise it is the
/// one `command=` line and there is no `command_args=` line.
#[verifier::rlimit(40)]
pub proof fn lemma_openrc_command(v: ServiceView)
    requires
        is_plain_service(v),
    ensures
        lines(openrc_script(v))[opening_lines(v).len() as int] == "command=\""@ + command_of(v)
            + "\""@,
        words(command_of(v)).len() >= 2 ==> {
            &&& lines(openrc_script(v))[opening_lines(v).len() as int + 1] == "command_args=\""@
                + join_with(words(command_of(v)).skip(1), seq![' ']) + "\""@
            &&& lines(openrc_script(v))[opening_lines(v).len() as int + 2] == "command=\""@ + words(
                command_of(v),
            )[0] + "\""@
            &&& lines_with(lines(openrc_script(v)), "command=\""@) == seq![
                "command=\""@ + command_of(v) + "\""@,
                "command=\""@ + words(command_of(v))[0] + "\""@,
            ]
            &&& lines_with(lines(openrc_script(v)), "command_args=\""@) == seq![
                "command_args=\""@ + join_with(words(command_of(v)).skip(1), seq![' ']) + "\""@,
            ]
        },
        words(command_of(v)).len() <= 1 ==> {
            &&& lines_with(lines(openrc_script(v)), "command=\""@) == seq![
                "command=\""@ + command_of(v) + "\""@,
            ]
            &&& lines_with(lines(openrc_script(v)), "command_args=\""@) == Seq::<
                Seq<char>,
            >::empty()
        },
{
    let e = Seq::<Seq<char>>::empty();
    let k5 = "command=\""@;
    let k6 = "command_args=\""@;
    let l = lines(openrc_script(v));
    let b5 = lines_with(command_lines(v), k5);
    let b6 = lines_with(command_lines(v), k6);
    assert(lines_with(l, k5) == b5 && lines_with(l, k6) == b6) by {
        assert(lines_with(settings_lines(v), k5) == e && lines_with(settings_lines(v), k6) == e)
            by {
            lemma_settings_keys(v);
            lemma_lines_with_none(settings_lines(v), k5);
            lemma_lines_with_none(settings_lines(v), k6);
        }
        lemma_functions_unset(v, k5);
        lemma_functions_unset(v, k6);
        assert(is_key(k5) && is_key(k6));
        lemma_script_keys(v, k5);
        lemma_script_keys(v, k6);
        assert(b5 + e + e + e + e =~= b5);
        assert(b6 + e + e + e + e =~= b6);
    }
    lemma_command_keys(v);
    let n = opening_lines(v).len() as int;
    let b = command_lines(v);
    assert(l[n] == b[0] && (b.len() == 3 ==> l[n + 1] == b[1] && l[n + 2] == b[2])) by {
        lemma_script_lines(v);
        assert(l == opening_lines(v) + b + (settings_lines(v) + delegate_lines(v) + reload_lines(
            v,
        ) + stop_lines(v)));
    }
}

/// The lines of the script that open the setting `k`: those of the settings.
proof fn lemma_setting_in_script(v: ServiceView, k: Seq<char>)
    requires
        is_plain_service(v),
        k == key_supervisor() || k == "command_user=\""@ || k == "pidfile=\""@ || k
            == "directory=\""@,
    ensures
        lines_with(lines(openrc_script(v)), k) == lines_with(settings_lines(v), k),
{
    let e = Seq::<Seq<char>>::empty();
    let s = lines_with(settings_lines(v), k);
    assert(lines_with(command_lines(v), k) == e) by {
        lemma_command_keys(v);
        lemma_lines_with_none(command_lines(v), k);
    }
    lemma_functions_unset(v, k);
    assert(is_key(k));
    lemma_script_keys(v, k);
    assert(e + s + e + e + e =~= s);
}

/// The script runs the service as its user, in a `command_user=` line with
/// the user, or else with `:` and the group, and has no such line when
/// neither is set; it has a `pidfile=` line exactly when a pid file is set,
/// and a `directory=` line exactly when a working directory is set, each
/// with that value.
pub proof fn lemma_openrc_settings(v: ServiceView)
    requires
        is_plain_service(v),
    ensures
        lines_with(lines(openrc_script(v)), "command_user=\""@) == match v.user {
            Some(u) => seq!["command_user=\""@ + u + "\""@],
            None => match v.group {
                Some(g) => seq!["command_user=\":"@ + g + "\""@],
                None => Seq::<Seq<char>>::empty(),
            },
        },
        lines_with(lines(openrc_script(v)), "pidfile=\""@) == match v.pid_file {
            Some(p) => seq!["pidfile=\""@ + p + "\""@],
            None => Seq::<Seq<char>>::empty(),
        },
        lines_with(lines(openrc_script(v)), "directory=\""@) == match v.working_directory {
            Some(w) => seq!["directory=\""@ + w + "\""@],
            None => Seq::<Seq<char>>::empty(),
        },
{
    lemma_setting_in_script(v, "command_user=\""@);
    lemma_setting_in_script(v, "pidfile=\""@);
    lemma_setting_in_script(v, "directory=\""@);
    lemma_settings_keys(v);
}

/// The lines of the script that open the function `k`: those of the functions.
proof fn lemma_function_in_script(v: ServiceView, k: Seq<char>)
    requires
        is_plain_service(v),
        k == "start_pre() {"@ || k == "reload() {"@ || k == "stop() {"@,
    ensures
        lines_with(lines(openrc_script(v)), k) == lines_with(delegate_lines(v), k) + lines_with(
            reload_lines(v),
            k,
        ) + lines_with(stop_lines(v), k),
{
    let e = Seq::<Seq<char>>::empty();
    assert(lines_with(command_lines(v), k) == e) by {
        lemma_command_keys(v);
        lemma_lines_with_none(command_lines(v), k);
    }
    assert(lines_with(settings_lines(v), k) == e) by {
        lemma_settings_keys(v);
        lemma_lines_with_none(settings_lines(v), k);
    }
    assert(is_key(k));
    lemma_script_keys(v, k);
    let d = lines_with(delegate_lines(v), k);
    let r = lines_with(reload_lines(v), k);
    let t = lines_with(stop_lines(v), k);
    assert(e + e + d + r + t =~= d + r + t);
}

/// The script ends with its shell functions, in this order: `start_pre`,
/// which sets up a delegated cgroup, exactly when the service delegates
/// (`yes` or `container`); `reload`, exactly when the service has a reload
/// command; and `stop`, exactly when it has a stop command.
#[verifier::rlimit(40)]
pub proof fn lemma_openrc_functions(v: ServiceView)
    requires
        is_plain_service(v),
    ensures
        lines(openrc_script(v)) == opening_lines(v) + command_lines(v) + settings_lines(v)
            + delegate_lines(v) + reload_lines(v) + stop_lines(v),
        lines_with(lines(openrc_script(v)), "start_pre() {"@) == if is_delegated(v) {
            seq!["start_pre() {"@]
        } else {
            Seq::<Seq<char>>::empty()
        },
        lines_with(lines(openrc_script(v)), "reload() {"@) == if v.exec_reload is Some {
            seq!["reload() {"@]
        } else {
            Seq::<Seq<char>>::empty()
        },
        lines_with(lines(openrc_script(v)), "stop() {"@) == if v.exec_stop is Some {
            seq!["stop() {"@]
        } else {
            Seq::<Seq<char>>::empty()
        },
{
    lemma_script_lines(v);
    let e = Seq::<Seq<char>>::empty();
    let sp = "start_pre() {"@;
    let rl = "reload() {"@;
    let st = "stop() {"@;
    lemma_function_in_script(v, sp);
    lemma_function_in_script(v, rl);
    lemma_function_in_script(v, st);
    lemma_block_keys(v);
    assert(lines_with(delegate_lines(v), sp) + e + e =~= lines_with(delegate_lines(v), sp));
    assert(e + lines_with(reload_lines(v), rl) + e =~= lines_with(reload_lines(v), rl));
    assert(e + e + lines_with(stop_lines(v), st) =~= lines_with(stop_lines(v), st));
}

/// The script opens with the shebang, the description when there is one,
/// the preload of the shim library, the exported variables and the sourced
/// environment files in their order (with a blank line after each group
/// that is there), and then names the command; read as lines, its first
/// lines are [`opening_lines`].
pub proof fn lemma_openrc_opening(v: ServiceView)
    ensures
        starts_with(openrc_script(v), header_part(v) + environment_part(v) + "command=\""@),
        is_plain_service(v) ==> lines(openrc_script(v)).take(opening_lines(v).len() as int)
            == opening_lines(v),
{
    reveal_strlit("command=\"");
    let p = header_part(v) + environment_part(v) + "command=\""@;
    assert(openrc_script(v) =~= p + (command_of(v) + "\"\n"@ + match command_args(command_of(v)) {
        Some(args) => "command_args=\""@ + args + "\"\n"@ + "command=\""@ + words(command_of(v))[0]
            + "\"\n"@,
        None => seq![],
    } + settings_part(v) + delegate_part(v) + functions_part(v)));
    assert(openrc_script(v).take(p.len() as int) =~= p);
    if is_plain_service(v) {
        lemma_script_lines(v);
        assert(script_lines(v).take(opening_lines(v).len() as int) =~= opening_lines(v));
    }
}

} // verus!
