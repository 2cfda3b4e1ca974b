# compatd

A systemd compatibility layer for OpenRC-based distributions. It converts
systemd units into what OpenRC-based systems use:

- `.service` → OpenRC init script (`unit::parse`, `openrc::generate`)
- `.timer` → cron lines (`timer::parse`, `timer::to_cron`)
- `.socket` → s6 run script (`socket::parse`, `socket::to_s6`)
- `.mount` → `/etc/fstab` line (`mount::parse`, `mount::to_fstab`)

and provides `systemctl`-style commands, socket activation and cgroup
delegation.

## Layout

- `src/` is the library, written in Verus. Every function has a contract
  over a mathematical model of the text it reads or writes (`Seq<char>`),
  and Verus proves the code against it.
  - `text.rs`: whitespace and trimming, lines and words, searching,
    decimal numbers and their parsing.
  - `syntax.rs`: what all unit files share: continued lines, comments,
    `[Section]` headers and `key=value` entries.
  - `unit.rs`, `timer.rs`, `socket.rs`, `mount.rs`: the units and their
    readers; `openrc.rs`, and the writers in `timer.rs`, `socket.rs` and
    `mount.rs`: the texts written from them.
  - `activate.rs`, `cgroup.rs`, `systemctl.rs`: the decisions behind socket
    activation, cgroup delegation and unit lookup.
  Each module ends with the laws it proves (public proof functions).
- `app/main.rs` is the command-line program: argument parsing, files,
  sockets, `exec`, and system calls.
- `tests/` runs the library on concrete units.
