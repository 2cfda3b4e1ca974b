//! `.timer` units, and the cron lines that stand for them.
use vstd::prelude::*;

use crate::syntax::{entries, entries_of, entry_views, last_value_of, values_of, Entry, EntryView};
use crate::text::{
    chars_of, copy_range, decimal, ends_with, eq_str, is_digit, is_ws, lemma_decimal_digits,
    lemma_parse_decimal, lemma_trim_unchanged, lines, opt_view, parse_u64, parse_u64_range,
    push_chars, push_decimal, push_str, push_string, starts_with, string_of, strings_view, trim,
    trimmed,
};

verus! {

/// A parsed `.timer` unit.
#[derive(Debug)]
pub struct Timer {
    pub description: Option<String>,
    pub on_calendar: Vec<String>,
    pub on_boot_sec: Option<String>,
    pub on_unit_active_sec: Option<String>,
    pub on_unit_inactive_sec: Option<String>,
    pub persistent: bool,
}

/// What a [`Timer`] holds, as character sequences.
pub struct TimerView {
    pub description: Option<Seq<char>>,
    pub on_calendar: Seq<Seq<char>>,
    pub on_boot_sec: Option<Seq<char>>,
    pub on_unit_active_sec: Option<Seq<char>>,
    pub on_unit_inactive_sec: Option<Seq<char>>,
    pub persistent: bool,
}

impl View for Timer {
    type V = TimerView;

    open spec fn view(&self) -> TimerView {
        TimerView {
            description: opt_view(self.description),
            on_calendar: strings_view(self.on_calendar@),
            on_boot_sec: opt_view(self.on_boot_sec),
            on_unit_active_sec: opt_view(self.on_unit_active_sec),
            on_unit_inactive_sec: opt_view(self.on_unit_inactive_sec),
            persistent: self.persistent,
        }
    }
}

/// The timer with nothing set.
pub open spec fn empty_timer() -> TimerView {
    TimerView {
        description: None,
        on_calendar: seq![],
        on_boot_sec: None,
        on_unit_active_sec: None,
        on_unit_inactive_sec: None,
        persistent: false,
    }
}

impl Timer {
    /// The timer with nothing set.
    pub fn new() -> (t: Timer)
        ensures
            t@ == empty_timer(),
    {
        let t = Timer {
            description: None,
            on_calendar: Vec::new(),
            on_boot_sec: None,
            on_unit_active_sec: None,
            on_unit_inactive_sec: None,
            persistent: false,
        };
        assert(t@.on_calendar =~= seq![]);
        t
    }
}

impl Default for Timer {
    fn default() -> (r: Timer)
        ensures
            r@ == empty_timer(),
    {
        Timer::new()
    }
}

// ---------------------------------------------------------------------------
// Parsing
// ---------------------------------------------------------------------------
/// Whether a `Persistent=` value turns it on.
pub open spec fn is_true(v: Seq<char>) -> bool {
    v == "yes"@ || v == "true"@ || v == "1"@
}

/// What the entry `e` changes in `t`.
pub open spec fn timer_apply(t: TimerView, e: EntryView) -> TimerView {
    let v = e.value;
    if e.section == "Unit"@ {
        if e.key == "Description"@ {
            TimerView { description: Some(v), ..t }
        } else {
            t
        }
    } else if e.section == "Timer"@ {
        if e.key == "OnCalendar"@ {
            TimerView { on_calendar: t.on_calendar.push(v), ..t }
        } else if e.key == "OnBootSec"@ {
            TimerView { on_boot_sec: Some(v), ..t }
        } else if e.key == "OnUnitActiveSec"@ {
            TimerView { on_unit_active_sec: Some(v), ..t }
        } else if e.key == "OnUnitInactiveSec"@ {
            TimerView { on_unit_inactive_sec: Some(v), ..t }
        } else if e.key == "Persistent"@ {
            TimerView { persistent: is_true(v), ..t }
        } else {
            t
        }
    } else {
        t
    }
}

/// The timer that the entries `es` describe, applied in order.
pub open spec fn timer_from(es: Seq<EntryView>) -> TimerView
    decreases es.len(),
{
    if es.len() == 0 {
        empty_timer()
    } else {
        timer_apply(timer_from(es.drop_last()), es.last())
    }
}

/// The timer that the text of a `.timer` unit describes (backslashes do not
/// continue lines here).
pub open spec fn parse_timer(input: Seq<char>) -> TimerView {
    timer_from(entries(lines(input)))
}

/// Applies the entry `e` to `t`.
fn apply(t: &mut Timer, e: &Entry)
    ensures
        final(t)@ == timer_apply(old(t)@, e@),
{
    let v = &e.value;
    if eq_str(&e.section, "Unit") {
        if eq_str(&e.key, "Description") {
            t.description = Some(string_of(v));
        }
    } else if eq_str(&e.section, "Timer") {
        if eq_str(&e.key, "OnCalendar") {
            t.on_calendar.push(string_of(v));
            assert(strings_view(t.on_calendar@) =~= old(t)@.on_calendar.push(v@));
        } else if eq_str(&e.key, "OnBootSec") {
            t.on_boot_sec = Some(string_of(v));
        } else if eq_str(&e.key, "OnUnitActiveSec") {
            t.on_unit_active_sec = Some(string_of(v));
        } else if eq_str(&e.key, "OnUnitInactiveSec") {
            t.on_unit_inactive_sec = Some(string_of(v));
        } else if eq_str(&e.key, "Persistent") {
            t.persistent = eq_str(v, "yes") || eq_str(v, "true") || eq_str(v, "1");
        }
    }
}

/// Reads the text of a `.timer` unit.
pub fn parse(input: &str) -> (t: Timer)
    ensures
        t@ == parse_timer(input@),
{
    let chars = chars_of(input);
    let es = entries_of(&chars);
    let ghost ev = entry_views(es@);
    let mut t = Timer::new();
    for i in 0..es.len()
        invariant
            ev == entry_views(es@),
            ev == entries(lines(chars@)),
            t@ == timer_from(ev.take(i as int)),
    {
        assert(ev.take(i + 1).drop_last() =~= ev.take(i as int));
        apply(&mut t, &es[i]);
    }
    assert(ev.take(es@.len() as int) =~= ev);
    t
}

// ---------------------------------------------------------------------------
// Durations
// ---------------------------------------------------------------------------
/// The number that `str::parse::<u64>` reads from `s`, or 0.
pub open spec fn number_or_zero(s: Seq<char>) -> nat {
    match parse_u64(s) {
        Some(v) => v as nat,
        None => 0,
    }
}

/// How many characters of unit suffix the trimmed duration `t` ends with,
/// and how many seconds its unit has: `min` is 60, `h` 3600, `s` 1, `m` 60,
/// and no unit means seconds.
pub open spec fn duration_unit(t: Seq<char>) -> (int, nat) {
    if ends_with(t, seq!['m', 'i', 'n']) {
        (3, 60)
    } else if ends_with(t, seq!['h']) {
        (1, 3600)
    } else if ends_with(t, seq!['s']) {
        (1, 1)
    } else if ends_with(t, seq!['m']) {
        (1, 60)
    } else {
        (0, 1)
    }
}

/// The seconds that a duration such as `5min`, `1h`, `30s`, `2m` or `90`
/// stands for, after trimming: the number before the unit (0 when it does
/// not read as a `u64`) times the seconds of the unit.
pub open spec fn duration_secs(s: Seq<char>) -> nat {
    let t = trim(s);
    let (cut, scale) = duration_unit(t);
    number_or_zero(t.take(t.len() - cut)) * scale
}

proof fn lemma_suffixes(t: Seq<char>)
    ensures
        ends_with(t, seq!['m', 'i', 'n']) <==> (t.len() >= 3 && t[t.len() - 3] == 'm' && t[t.len()
            - 2] == 'i' && t[t.len() - 1] == 'n'),
        forall|c: char| ends_with(t, seq![c]) <==> (t.len() >= 1 && t[t.len() - 1] == c),
{
    let n = t.len() as int;
    if n >= 3 {
        let p = t.skip(n - 3);
        assert(p[0] == t[n - 3] && p[1] == t[n - 2] && p[2] == t[n - 1]);
        if t[n - 3] == 'm' && t[n - 2] == 'i' && t[n - 1] == 'n' {
            assert(p =~= seq!['m', 'i', 'n']);
        }
    }
    assert forall|c: char| ends_with(t, seq![c]) <==> (t.len() >= 1 && t[t.len() - 1] == c) by {
        if n >= 1 {
            assert(t.skip(n - 1)[0] == t[n - 1]);
            if t[n - 1] == c {
                assert(t.skip(n - 1) =~= seq![c]);
            }
        }
    }
}

/// The unit suffix length and seconds per unit of the trimmed duration `t`.
fn duration_unit_of(t: &Vec<char>) -> (r: (usize, u64))
    ensures
        r.0 as int == duration_unit(t@).0,
        r.1 as nat == duration_unit(t@).1,
        r.1 >= 1,
{
    proof {
        lemma_suffixes(t@);
    }
    let n = t.len();
    if n >= 3 && t[n - 3] == 'm' && t[n - 2] == 'i' && t[n - 1] == 'n' {
        (3, 60)
    } else if n >= 1 && t[n - 1] == 'h' {
        (1, 3600)
    } else if n >= 1 && t[n - 1] == 's' {
        (1, 1)
    } else if n >= 1 && t[n - 1] == 'm' {
        (1, 60)
    } else {
        (0, 1)
    }
}

/// The number before the unit of the duration `s`, or 0, and the seconds
/// per unit.
fn duration_parts(s: &Vec<char>) -> (r: (u64, u64))
    ensures
        r.0 as nat * r.1 as nat == duration_secs(s@),
        r.1 >= 1,
{
    let t = trimmed(s);
    let (cut, scale) = duration_unit_of(&t);
    assert(t@.take(t@.len() - cut) =~= t@.subrange(0, t@.len() - cut));
    let v = match parse_u64_range(&t, 0, t.len() - cut) {
        Some(v) => v,
        None => 0,
    };
    (v, scale)
}

/// The seconds that the duration `s` stands for.
fn duration_of(s: &Vec<char>) -> (r: u64)
    requires
        duration_secs(s@) <= u64::MAX,
    ensures
        r == duration_secs(s@),
{
    let (v, scale) = duration_parts(s);
    v * scale
}

/// The seconds that a duration such as `5min` or `1h` stands for.
pub fn parse_duration(s: &str) -> (r: u64)
    requires
        duration_secs(s@) <= u64::MAX,
    ensures
        r == duration_secs(s@),
{
    duration_of(&chars_of(s))
}

// ---------------------------------------------------------------------------
// Cron
// ---------------------------------------------------------------------------
/// The cron schedule for an `OnCalendar=` value: the named and the
/// equivalent explicit schedules map to theirs, `*:0/N` to every `N`
/// minutes, and anything else to a comment that names it.
pub open spec fn cron_schedule(cal: Seq<char>) -> Seq<char> {
    if cal == "minutely"@ || cal == "*-*-* *:*:00"@ {
        "* * * * *"@
    } else if cal == "hourly"@ || cal == "*-*-* *:00:00"@ {
        "0 * * * *"@
    } else if cal == "daily"@ || cal == "*-*-* 00:00:00"@ {
        "0 0 * * *"@
    } else if cal == "weekly"@ || cal == "Mon *-*-* 00:00:00"@ {
        "0 0 * * 1"@
    } else if cal == "monthly"@ || cal == "*-*-01 00:00:00"@ {
        "0 0 1 * *"@
    } else if cal == "yearly"@ || cal == "*-01-01 00:00:00"@ {
        "0 0 1 1 *"@
    } else if starts_with(cal, seq!['*', ':', '0', '/']) {
        "*/"@ + cal.skip(4) + " * * * *"@
    } else {
        "# Unsupported OnCalendar: "@ + cal
    }
}

fn cron_of(cal: &Vec<char>) -> (r: Vec<char>)
    ensures
        r@ == cron_schedule(cal@),
{
    let mut out: Vec<char> = Vec::new();
    if eq_str(cal, "minutely") || eq_str(cal, "*-*-* *:*:00") {
        push_str(&mut out, "* * * * *");
    } else if eq_str(cal, "hourly") || eq_str(cal, "*-*-* *:00:00") {
        push_str(&mut out, "0 * * * *");
    } else if eq_str(cal, "daily") || eq_str(cal, "*-*-* 00:00:00") {
        push_str(&mut out, "0 0 * * *");
    } else if eq_str(cal, "weekly") || eq_str(cal, "Mon *-*-* 00:00:00") {
        push_str(&mut out, "0 0 * * 1");
    } else if eq_str(cal, "monthly") || eq_str(cal, "*-*-01 00:00:00") {
        push_str(&mut out, "0 0 1 * *");
    } else if eq_str(cal, "yearly") || eq_str(cal, "*-01-01 00:00:00") {
        push_str(&mut out, "0 0 1 1 *");
    } else if cal.len() >= 4 && cal[0] == '*' && cal[1] == ':' && cal[2] == '0' && cal[3] == '/' {
        assert(cal@.take(4) =~= seq!['*', ':', '0', '/']);
        push_str(&mut out, "*/");
        let rest = copy_range(cal, 4, cal.len());
        assert(rest@ =~= cal@.skip(4));
        push_chars(&mut out, &rest);
        push_str(&mut out, " * * * *");
    } else {
        assert(!starts_with(cal@, seq!['*', ':', '0', '/'])) by {
            if cal@.len() >= 4 {
                let p = cal@.take(4);
                assert(p[0] == cal@[0] && p[1] == cal@[1] && p[2] == cal@[2] && p[3] == cal@[3]);
            }
        }
        push_str(&mut out, "# Unsupported OnCalendar: ");
        push_chars(&mut out, cal);
    }
    assert(out@ =~= cron_schedule(cal@));
    out
}

/// The cron schedule for an `OnCalendar=` value; there is one for every value.
pub fn on_calendar_to_cron(cal: &str) -> (r: Option<String>)
    ensures
        r matches Some(c) && c@ == cron_schedule(cal@),
{
    Some(string_of(&cron_of(&chars_of(cal))))
}

/// The cron line that runs at boot, after the delay of `OnBootSec=` when it
/// is not zero.
pub open spec fn boot_line(boot: Seq<char>) -> Seq<char> {
    let delay = duration_secs(boot);
    let pause = if delay > 0 {
        " sleep "@ + decimal(delay)
    } else {
        seq![]
    };
    "@reboot"@ + pause + " /usr/bin/systemd-timer-compat \"$@\""@
}

/// The cron lines for `t`: a comment with the description, one line for
/// each `OnCalendar=` value, and a boot line for `OnBootSec=`.
pub open spec fn cron_lines(t: TimerView) -> Seq<Seq<char>> {
    let head = match t.description {
        Some(d) => seq!["# "@ + d],
        None => seq![],
    };
    let boot = match t.on_boot_sec {
        Some(b) => seq![boot_line(b)],
        None => seq![],
    };
    head + t.on_calendar.map_values(|c: Seq<char>| cron_schedule(c)) + boot
}

/// Whether the boot delay of `t` fits in a `u64`.
pub open spec fn boot_delay_fits(t: TimerView) -> bool {
    t.on_boot_sec matches Some(b) ==> duration_secs(b) <= u64::MAX
}

/// Whether the boot delay of `t` fits in a `u64`, so that [`to_cron`] can
/// compute it.
pub fn boot_delay_in_range(t: &Timer) -> (r: bool)
    ensures
        r == boot_delay_fits(t@),
{
    match &t.on_boot_sec {
        Some(b) => {
            let (v, scale) = duration_parts(&chars_of(b.as_str()));
            proof {
                assert((v * scale <= u64::MAX) == (v <= u64::MAX / scale)) by (nonlinear_arith)
                    requires
                        scale >= 1,
                ;
            }
            v <= u64::MAX / scale
        },
        None => true,
    }
}

fn push_boot_line(buf: &mut Vec<char>, boot: &String)
    requires
        duration_secs(boot@) <= u64::MAX,
    ensures
        final(buf)@ == old(buf)@ + boot_line(boot@),
{
    let delay = duration_of(&chars_of(boot.as_str()));
    push_str(buf, "@reboot");
    if delay > 0 {
        push_str(buf, " sleep ");
        push_decimal(buf, delay);
    }
    push_str(buf, " /usr/bin/systemd-timer-compat \"$@\"");
    assert(buf@ =~= old(buf)@ + boot_line(boot@));
}

/// The cron lines for `t`.
pub fn to_cron(t: &Timer) -> (r: Vec<String>)
    requires
        boot_delay_fits(t@),
    ensures
        strings_view(r@) == cron_lines(t@),
{
    let mut out: Vec<String> = Vec::new();
    let ghost head = match t@.description {
        Some(d) => seq!["# "@ + d],
        None => seq![],
    };
    match &t.description {
        Some(d) => {
            let mut line: Vec<char> = Vec::new();
            push_str(&mut line, "# ");
            push_string(&mut line, d);
            out.push(string_of(&line));
        },
        None => {},
    }
    assert(strings_view(out@) =~= head);
    let ghost cals = t@.on_calendar.map_values(|c: Seq<char>| cron_schedule(c));
    for i in 0..t.on_calendar.len()
        invariant
            strings_view(out@) == head + cals.take(i as int),
            cals == t@.on_calendar.map_values(|c: Seq<char>| cron_schedule(c)),
            t@.on_calendar.len() == t.on_calendar@.len(),
    {
        let ghost before = out@;
        let cal = chars_of(t.on_calendar[i].as_str());
        let cron = cron_of(&cal);
        out.push(string_of(&cron));
        assert(cals.take(i + 1) =~= cals.take(i as int).push(cals[i as int]));
        assert(strings_view(out@) =~= strings_view(before).push(cron@));
    }
    assert(cals.take(t.on_calendar@.len() as int) =~= cals);
    let ghost mid = out@;
    match &t.on_boot_sec {
        Some(b) => {
            let mut line: Vec<char> = Vec::new();
            push_boot_line(&mut line, b);
            out.push(string_of(&line));
            assert(strings_view(out@) =~= strings_view(mid).push(boot_line(b@)));
        },
        None => {},
    }
    assert(strings_view(out@) =~= cron_lines(t@));
    out
}


// ---------------------------------------------------------------------------
// Laws
// ---------------------------------------------------------------------------
/// A count with a unit is that many units in seconds: `Nmin` and `Nm` are
/// `N` minutes, `Nh` is `N` hours, `Ns` and `N` are `N` seconds.
pub proof fn lemma_duration_units(n: u64)
    ensures
        duration_secs(decimal(n as nat) + seq!['m', 'i', 'n']) == n * 60,
        duration_secs(decimal(n as nat) + seq!['h']) == n * 3600,
        duration_secs(decimal(n as nat) + seq!['s']) == n,
        duration_secs(decimal(n as nat) + seq!['m']) == n * 60,
        duration_secs(decimal(n as nat)) == n,
{
    let d = decimal(n as nat);
    lemma_decimal_digits(n as nat);
    lemma_parse_decimal(n);
    assert(!is_ws(d[0]));
    let t_min = d + seq!['m', 'i', 'n'];
    let t_h = d + seq!['h'];
    let t_s = d + seq!['s'];
    let t_m = d + seq!['m'];
    assert(t_min[0] == d[0] && t_h[0] == d[0] && t_s[0] == d[0] && t_m[0] == d[0]);
    lemma_trim_unchanged(t_min);
    lemma_trim_unchanged(t_h);
    lemma_trim_unchanged(t_s);
    lemma_trim_unchanged(t_m);
    assert(is_digit(d.last()));
    lemma_trim_unchanged(d);
    lemma_suffixes(t_min);
    lemma_suffixes(t_h);
    lemma_suffixes(t_s);
    lemma_suffixes(t_m);
    lemma_suffixes(d);
    assert(t_min[t_min.len() - 3] == 'm' && t_min[t_min.len() - 2] == 'i');
    assert(t_min.take(t_min.len() - 3) =~= d);
    assert(t_h.take(t_h.len() - 1) =~= d);
    assert(t_s.take(t_s.len() - 1) =~= d);
    assert(t_m.take(t_m.len() - 1) =~= d);
    assert(t_m[t_m.len() - 1] == 'm');
    assert(t_s[t_s.len() - 1] == 's');
    assert(t_h[t_h.len() - 1] == 'h');
    assert(t_min[t_min.len() - 1] == 'n');
    assert(number_or_zero(d) == n);
    assert(duration_unit(t_s) == (1int, 1nat));
    assert(duration_unit(d) == (0int, 1nat));
    assert(duration_secs(t_s) == number_or_zero(d) * 1);
    assert(d.take(d.len() - 0int) =~= d);
    assert(duration_secs(d) == number_or_zero(d) * 1);
    assert(d.take(d.len() as int) =~= d);
    assert(d[d.len() - 1] == d.last());
}

/// Each `OnCalendar=` value gives one cron line, in order, after the
/// description comment if there is one; a boot line follows if
/// `OnBootSec=` is set.
pub proof fn lemma_cron_line_count(t: TimerView)
    ensures
        ({
            let head: int = if t.description is Some {
                1
            } else {
                0
            };
            let tail: int = if t.on_boot_sec is Some {
                1
            } else {
                0
            };
            &&& cron_lines(t).len() == head + t.on_calendar.len() + tail
            &&& forall|i: int|
                0 <= i < t.on_calendar.len() ==> cron_lines(t)[head + i] == cron_schedule(
                    #[trigger] t.on_calendar[i],
                )
        }),
{
}

/// The timer that entries describe has every `OnCalendar=` value of the
/// `[Timer]` section, in order, and the last description, `OnBootSec=`,
/// `OnUnitActiveSec=`, `OnUnitInactiveSec=` and `Persistent=` setting;
/// `Persistent=` is on for `yes`, `true` and `1`
/// only.
pub proof fn lemma_timer_fields(es: Seq<EntryView>)
    ensures
        timer_from(es).on_calendar == values_of(es, "Timer"@, "OnCalendar"@),
        timer_from(es).description == last_value_of(es, "Unit"@, "Description"@),
        timer_from(es).on_boot_sec == last_value_of(es, "Timer"@, "OnBootSec"@),
        timer_from(es).on_unit_active_sec == last_value_of(es, "Timer"@, "OnUnitActiveSec"@),
        timer_from(es).on_unit_inactive_sec == last_value_of(es, "Timer"@, "OnUnitInactiveSec"@),
        timer_from(es).persistent == match last_value_of(es, "Timer"@, "Persistent"@) {
            Some(v) => v == "yes"@ || v == "true"@ || v == "1"@,
            None => false,
        },
    decreases es.len(),
{
    reveal_strlit("Unit");
    reveal_strlit("Timer");
    reveal_strlit("Description");
    reveal_strlit("OnCalendar");
    reveal_strlit("OnBootSec");
    reveal_strlit("OnUnitActiveSec");
    reveal_strlit("OnUnitInactiveSec");
    reveal_strlit("Persistent");
    assert("Unit"@.len() == 4 && "Timer"@.len() == 5 && "Description"@.len() == 11);
    assert("OnCalendar"@.len() == 10 && "OnBootSec"@.len() == 9 && "Persistent"@.len() == 10);
    assert("OnUnitActiveSec"@.len() == 15 && "OnUnitInactiveSec"@.len() == 17);
    assert("OnCalendar"@ != "Persistent"@) by {
        assert("OnCalendar"@[0] == 'O');
        assert("Persistent"@[0] == 'P');
    }
    if es.len() > 0 {
        let p = es.drop_last();
        let e = es.last();
        lemma_timer_fields(p);
        let before = timer_from(p);
        let after = timer_apply(before, e);
        assert(timer_from(es) == after);
        if e.section == "Timer"@ && e.key == "OnCalendar"@ {
            assert(after.on_calendar == before.on_calendar.push(e.value));
        } else {
            assert(after.on_calendar == before.on_calendar);
        }
    }
}

/// The boot line waits for every nonzero delay: it is `@reboot`, then
/// ` sleep ` and the delay in seconds when that is not zero, then the
/// command; it is the last cron line of a timer with `OnBootSec=`.
pub proof fn lemma_boot_line(t: TimerView, b: Seq<char>)
    ensures
        duration_secs(b) > 0 ==> boot_line(b) == "@reboot sleep "@ + decimal(duration_secs(b))
            + " /usr/bin/systemd-timer-compat \"$@\""@,
        duration_secs(b) == 0 ==> boot_line(b) == "@reboot /usr/bin/systemd-timer-compat \"$@\""@,
        t.on_boot_sec matches Some(x) ==> cron_lines(t).len() > 0 && cron_lines(t).last()
            == boot_line(x),
{
    reveal_strlit("@reboot");
    reveal_strlit(" sleep ");
    reveal_strlit("@reboot sleep ");
    reveal_strlit(" /usr/bin/systemd-timer-compat \"$@\"");
    reveal_strlit("@reboot /usr/bin/systemd-timer-compat \"$@\"");
    let tail = " /usr/bin/systemd-timer-compat \"$@\""@;
    assert("@reboot"@ + " sleep "@ =~= "@reboot sleep "@);
    assert("@reboot"@ + tail =~= "@reboot /usr/bin/systemd-timer-compat \"$@\""@);
    assert("@reboot"@ + seq![] + tail =~= "@reboot"@ + tail);
    if duration_secs(b) > 0 {
        assert("@reboot"@ + (" sleep "@ + decimal(duration_secs(b))) + tail =~= "@reboot"@
            + " sleep "@ + decimal(duration_secs(b)) + tail);
    }
}

/// Each named schedule and its explicit calendar form give the same cron
/// schedule.
pub proof fn lemma_named_schedules()
    ensures
        cron_schedule("minutely"@) == cron_schedule("*-*-* *:*:00"@),
        cron_schedule("hourly"@) == cron_schedule("*-*-* *:00:00"@),
        cron_schedule("daily"@) == cron_schedule("*-*-* 00:00:00"@),
        cron_schedule("weekly"@) == cron_schedule("Mon *-*-* 00:00:00"@),
        cron_schedule("monthly"@) == cron_schedule("*-*-01 00:00:00"@),
        cron_schedule("yearly"@) == cron_schedule("*-01-01 00:00:00"@),
{
    reveal_strlit("minutely");
    reveal_strlit("*-*-* *:*:00");
    reveal_strlit("hourly");
    reveal_strlit("*-*-* *:00:00");
    reveal_strlit("daily");
    reveal_strlit("*-*-* 00:00:00");
    reveal_strlit("weekly");
    reveal_strlit("Mon *-*-* 00:00:00");
    reveal_strlit("monthly");
    reveal_strlit("*-*-01 00:00:00");
    reveal_strlit("yearly");
    reveal_strlit("*-01-01 00:00:00");
    assert("minutely"@.len() == 8 && "*-*-* *:*:00"@.len() == 12);
    assert("hourly"@.len() == 6 && "*-*-* *:00:00"@.len() == 13);
    assert("daily"@.len() == 5 && "*-*-* 00:00:00"@.len() == 14);
    assert("weekly"@.len() == 6 && "Mon *-*-* 00:00:00"@.len() == 18);
    assert("monthly"@.len() == 7 && "*-*-01 00:00:00"@.len() == 15);
    assert("yearly"@.len() == 6 && "*-01-01 00:00:00"@.len() == 16);
    assert("hourly"@[0] == 'h' && "weekly"@[0] == 'w' && "yearly"@[0] == 'y');
}

} // verus!
