//! `.service` units: what the `[Unit]` and `[Service]` sections say.
use vstd::prelude::*;

use crate::syntax::{
    entries, entries_of, entry_line, entry_views, header_line, is_continued, is_plain_key,
    is_plain_line, is_plain_value, join_continuation_lines, last_value_of, lemma_entry_line,
    lemma_header_line, lemma_text_of_lines, lemma_value_line, no_newline, terminated, values_of,
    Entry, EntryView,
};
use crate::text::{chars_of, eq_str, lines, opt_view, seqs, string_of, strings_view, trim};

verus! {

/// A parsed `.service` unit.
#[derive(Debug)]
pub struct Service {
    pub description: Option<String>,
    pub service_type: Option<String>,
    pub exec_start: Option<String>,
    pub exec_stop: Option<String>,
    pub exec_reload: Option<String>,
    pub user: Option<String>,
    pub group: Option<String>,
    pub working_directory: Option<String>,
    pub environment: Vec<String>,
    pub environment_file: Vec<String>,
    pub pid_file: Option<String>,
    pub restart: Option<String>,
    pub delegate: Option<String>,
}

/// What a [`Service`] holds, as character sequences.
pub struct ServiceView {
    pub description: Option<Seq<char>>,
    pub service_type: Option<Seq<char>>,
    pub exec_start: Option<Seq<char>>,
    pub exec_stop: Option<Seq<char>>,
    pub exec_reload: Option<Seq<char>>,
    pub user: Option<Seq<char>>,
    pub group: Option<Seq<char>>,
    pub working_directory: Option<Seq<char>>,
    pub environment: Seq<Seq<char>>,
    pub environment_file: Seq<Seq<char>>,
    pub pid_file: Option<Seq<char>>,
    pub restart: Option<Seq<char>>,
    pub delegate: Option<Seq<char>>,
}

impl View for Service {
    type V = ServiceView;

    open spec fn view(&self) -> ServiceView {
        ServiceView {
            description: opt_view(self.description),
            service_type: opt_view(self.service_type),
            exec_start: opt_view(self.exec_start),
            exec_stop: opt_view(self.exec_stop),
            exec_reload: opt_view(self.exec_reload),
            user: opt_view(self.user),
            group: opt_view(self.group),
            working_directory: opt_view(self.working_directory),
            environment: strings_view(self.environment@),
            environment_file: strings_view(self.environment_file@),
            pid_file: opt_view(self.pid_file),
            restart: opt_view(self.restart),
            delegate: opt_view(self.delegate),
        }
    }
}

/// The service with nothing set.
pub open spec fn empty_service() -> ServiceView {
    ServiceView {
        description: None,
        service_type: None,
        exec_start: None,
        exec_stop: None,
        exec_reload: None,
        user: None,
        group: None,
        working_directory: None,
        environment: seq![],
        environment_file: seq![],
        pid_file: None,
        restart: None,
        delegate: None,
    }
}

impl Service {
    /// The service with nothing set.
    pub fn new() -> (s: Service)
        ensures
            s@ == empty_service(),
    {
        let s = Service {
            description: None,
            service_type: None,
            exec_start: None,
            exec_stop: None,
            exec_reload: None,
            user: None,
            group: None,
            working_directory: None,
            environment: Vec::new(),
            environment_file: Vec::new(),
            pid_file: None,
            restart: None,
            delegate: None,
        };
        assert(s@.environment =~= seq![]);
        assert(s@.environment_file =~= seq![]);
        s
    }
}

impl Default for Service {
    fn default() -> (r: Service)
        ensures
            r@ == empty_service(),
    {
        Service::new()
    }
}

// ---------------------------------------------------------------------------
// Values
// ---------------------------------------------------------------------------
/// The words found so far in an `Environment=` value, the word being read,
/// and whether a double quote is open.
pub open spec fn env_scan(s: Seq<char>) -> (Seq<Seq<char>>, Seq<char>, bool)
    decreases s.len(),
{
    if s.len() == 0 {
        (seq![], seq![], false)
    } else {
        let (done, cur, quoted) = env_scan(s.drop_last());
        let c = s.last();
        if c == '"' {
            (done, cur, !quoted)
        } else if (c == ' ' || c == '\t') && !quoted {
            if cur.len() > 0 {
                (done.push(cur), seq![], quoted)
            } else {
                (done, cur, quoted)
            }
        } else {
            (done, cur.push(c), quoted)
        }
    }
}

/// The assignments of an `Environment=` value: words split at spaces and
/// tabs outside double quotes, with the quotes removed.
pub open spec fn env_words(s: Seq<char>) -> Seq<Seq<char>> {
    let (done, cur, _) = env_scan(s);
    if cur.len() > 0 {
        done.push(cur)
    } else {
        done
    }
}

/// An `Exec*=` value with its double quotes removed, where a backslash before
/// a double quote or a backslash stands for that character, and any other
/// backslash stays.
pub open spec fn unescape(s: Seq<char>) -> Seq<char>
    decreases s.len(),
{
    if s.len() == 0 {
        seq![]
    } else if s[0] == '"' {
        unescape(s.skip(1))
    } else if s[0] == '\\' {
        if s.len() == 1 {
            seq!['\\']
        } else if s[1] == '"' || s[1] == '\\' {
            seq![s[1]] + unescape(s.skip(2))
        } else {
            seq!['\\', s[1]] + unescape(s.skip(2))
        }
    } else {
        seq![s[0]] + unescape(s.skip(1))
    }
}

/// The assignments of an `Environment=` value.
pub fn parse_env_line(input: &Vec<char>) -> (r: Vec<Vec<char>>)
    ensures
        seqs(r@) == env_words(input@),
{
    let mut done: Vec<Vec<char>> = Vec::new();
    let mut cur: Vec<char> = Vec::new();
    let mut quoted = false;
    for i in 0..input.len()
        invariant
            (seqs(done@), cur@, quoted) == env_scan(input@.take(i as int)),
    {
        assert(input@.take(i + 1).drop_last() =~= input@.take(i as int));
        let c = input[i];
        if c == '"' {
            quoted = !quoted;
        } else if (c == ' ' || c == '\t') && !quoted {
            if cur.len() > 0 {
                let w = cur;
                done.push(w);
                cur = Vec::new();
                assert(seqs(done@) =~= env_scan(input@.take(i as int)).0.push(
                    env_scan(input@.take(i as int)).1,
                ));
            }
        } else {
            cur.push(c);
        }
    }
    assert(input@.take(input@.len() as int) =~= input@);
    if cur.len() > 0 {
        done.push(cur);
        assert(seqs(done@) =~= env_scan(input@).0.push(env_scan(input@).1));
    }
    done
}

/// An `Exec*=` value with its quotes removed.
pub fn unescape_value(value: &Vec<char>) -> (r: Vec<char>)
    ensures
        r@ == unescape(value@),
{
    let mut out: Vec<char> = Vec::new();
    let n = value.len();
    let mut i: usize = 0;
    assert(value@.skip(0) =~= value@);
    while i < n
        invariant
            i <= n == value@.len(),
            out@ + unescape(value@.skip(i as int)) == unescape(value@),
        decreases n - i,
    {
        let ghost rest = value@.skip(i as int);
        let c = value[i];
        if c == '"' {
            assert(rest.skip(1) =~= value@.skip(i + 1));
            i = i + 1;
        } else if c == '\\' {
            if i + 1 == n {
                out.push('\\');
                i = i + 1;
                assert(value@.skip(i as int) =~= seq![]);
                assert(out@ + unescape(value@.skip(i as int)) =~= unescape(value@));
            } else {
                let d = value[i + 1];
                assert(rest.skip(2) =~= value@.skip(i + 2));
                let ghost before = out@;
                if d == '"' || d == '\\' {
                    out.push(d);
                } else {
                    out.push('\\');
                    out.push(d);
                }
                i = i + 2;
                assert(out@ + unescape(value@.skip(i as int)) =~= before + unescape(rest));
            }
        } else {
            let ghost before = out@;
            out.push(c);
            assert(rest.skip(1) =~= value@.skip(i + 1));
            i = i + 1;
            assert(out@ + unescape(value@.skip(i as int)) =~= before + unescape(rest));
        }
    }
    assert(value@.skip(n as int) =~= seq![]);
    assert(out@ + seq![] =~= out@);
    out
}

// ---------------------------------------------------------------------------
// Parsing
// ---------------------------------------------------------------------------
/// What the entry `e` changes in `s`.
pub open spec fn service_apply(s: ServiceView, e: EntryView) -> ServiceView {
    let v = e.value;
    if e.section == "Unit"@ {
        if e.key == "Description"@ {
            ServiceView { description: Some(v), ..s }
        } else {
            s
        }
    } else if e.section == "Service"@ {
        if e.key == "Type"@ {
            ServiceView { service_type: Some(v), ..s }
        } else if e.key == "ExecStart"@ {
            ServiceView { exec_start: Some(unescape(v)), ..s }
        } else if e.key == "ExecStop"@ {
            ServiceView { exec_stop: Some(unescape(v)), ..s }
        } else if e.key == "ExecReload"@ {
            ServiceView { exec_reload: Some(unescape(v)), ..s }
        } else if e.key == "User"@ {
            ServiceView { user: Some(v), ..s }
        } else if e.key == "Group"@ {
            ServiceView { group: Some(v), ..s }
        } else if e.key == "WorkingDirectory"@ {
            ServiceView { working_directory: Some(v), ..s }
        } else if e.key == "Environment"@ {
            ServiceView { environment: s.environment + env_words(v), ..s }
        } else if e.key == "EnvironmentFile"@ {
            ServiceView { environment_file: s.environment_file.push(v), ..s }
        } else if e.key == "PIDFile"@ {
            ServiceView { pid_file: Some(v), ..s }
        } else if e.key == "Restart"@ {
            ServiceView { restart: Some(v), ..s }
        } else if e.key == "Delegate"@ {
            ServiceView { delegate: Some(v), ..s }
        } else {
            s
        }
    } else {
        s
    }
}

/// The service that the entries `es` describe, applied in order.
pub open spec fn service_from(es: Seq<EntryView>) -> ServiceView
    decreases es.len(),
{
    if es.len() == 0 {
        empty_service()
    } else {
        service_apply(service_from(es.drop_last()), es.last())
    }
}

/// The service that the text of a `.service` unit describes.
pub open spec fn parse_service(input: Seq<char>) -> ServiceView {
    service_from(entries(lines(crate::syntax::join_continuations(input))))
}

/// Appends the strings made of `items` to `dst`.
fn push_strings(dst: &mut Vec<String>, items: &Vec<Vec<char>>)
    ensures
        strings_view(final(dst)@) == strings_view(old(dst)@) + seqs(items@),
{
    let ghost start = strings_view(dst@);
    for j in 0..items.len()
        invariant
            strings_view(dst@) == start + seqs(items@).take(j as int),
    {
        assert(seqs(items@).take(j + 1) =~= seqs(items@).take(j as int).push(items@[j as int]@));
        let ghost before = dst@;
        let s = string_of(&items[j]);
        dst.push(s);
        assert(strings_view(dst@) =~= strings_view(before).push(s@));
        assert(strings_view(dst@) =~= start + seqs(items@).take(j + 1));
    }
    assert(seqs(items@).take(items@.len() as int) =~= seqs(items@));
}

/// Applies the entry `e` to `svc`.
fn apply(svc: &mut Service, e: &Entry)
    ensures
        final(svc)@ == service_apply(old(svc)@, e@),
{
    let v = &e.value;
    if eq_str(&e.section, "Unit") {
        if eq_str(&e.key, "Description") {
            svc.description = Some(string_of(v));
        }
    } else if eq_str(&e.section, "Service") {
        if eq_str(&e.key, "Type") {
            svc.service_type = Some(string_of(v));
        } else if eq_str(&e.key, "ExecStart") {
            svc.exec_start = Some(string_of(&unescape_value(v)));
        } else if eq_str(&e.key, "ExecStop") {
            svc.exec_stop = Some(string_of(&unescape_value(v)));
        } else if eq_str(&e.key, "ExecReload") {
            svc.exec_reload = Some(string_of(&unescape_value(v)));
        } else if eq_str(&e.key, "User") {
            svc.user = Some(string_of(v));
        } else if eq_str(&e.key, "Group") {
            svc.group = Some(string_of(v));
        } else if eq_str(&e.key, "WorkingDirectory") {
            svc.working_directory = Some(string_of(v));
        } else if eq_str(&e.key, "Environment") {
            let envs = parse_env_line(v);
            push_strings(&mut svc.environment, &envs);
        } else if eq_str(&e.key, "EnvironmentFile") {
            svc.environment_file.push(string_of(v));
            assert(strings_view(svc.environment_file@) =~= old(svc)@.environment_file.push(v@));
        } else if eq_str(&e.key, "PIDFile") {
            svc.pid_file = Some(string_of(v));
        } else if eq_str(&e.key, "Restart") {
            svc.restart = Some(string_of(v));
        } else if eq_str(&e.key, "Delegate") {
            svc.delegate = Some(string_of(v));
        }
    }
}

/// The lines of `input` with backslash-continued lines joined: each line
/// ends with `'\n'`; a line ending in a backslash is trimmed, loses the
/// backslash, and is joined by one space to the next line, trimmed at its
/// start.
pub fn join_continuations(input: &str) -> (r: String)
    ensures
        r@ == crate::syntax::join_continuations(input@),
{
    let chars = chars_of(input);
    string_of(&join_continuation_lines(&chars))
}

/// Reads the text of a `.service` unit.
pub fn parse(input: &str) -> (svc: Service)
    ensures
        svc@ == parse_service(input@),
{
    let chars = chars_of(input);
    let joined = join_continuation_lines(&chars);
    let es = entries_of(&joined);
    let ghost ev = entry_views(es@);
    let mut svc = Service::new();
    for i in 0..es.len()
        invariant
            ev == entry_views(es@),
            ev == entries(lines(joined@)),
            svc@ == service_from(ev.take(i as int)),
    {
        assert(ev.take(i + 1).drop_last() =~= ev.take(i as int));
        apply(&mut svc, &es[i]);
    }
    assert(ev.take(es@.len() as int) =~= ev);
    svc
}


// ---------------------------------------------------------------------------
// Laws
// ---------------------------------------------------------------------------
/// Whether `s` holds no double quote and no backslash.
pub open spec fn no_quoting(s: Seq<char>) -> bool {
    forall|j: int| 0 <= j < s.len() ==> s[j] != '"' && s[j] != '\\'
}

/// A value without double quotes and backslashes is taken as it stands.
pub proof fn lemma_unescape_plain(s: Seq<char>)
    requires
        no_quoting(s),
    ensures
        unescape(s) == s,
    decreases s.len(),
{
    if s.len() > 0 {
        assert(no_quoting(s.skip(1))) by {
            assert forall|j: int| 0 <= j < s.skip(1).len() implies s.skip(1)[j] != '"'
                && s.skip(1)[j] != '\\' by {
                assert(s.skip(1)[j] == s[j + 1]);
            }
        }
        lemma_unescape_plain(s.skip(1));
        assert(seq![s[0]] + s.skip(1) =~= s);
    }
}

/// Double quotes only group: without backslashes, taking a value drops its
/// double quotes and keeps every other character.
pub proof fn lemma_unescape_drops_quotes(s: Seq<char>)
    requires
        forall|j: int| 0 <= j < s.len() ==> s[j] != '\\',
    ensures
        unescape(s) == s.filter(|c: char| c != '"'),
    decreases s.len(),
{
    if s.len() == 0 {
        reveal_with_fuel(Seq::filter, 1);
    } else {
        let t = s.skip(1);
        assert forall|j: int| 0 <= j < t.len() implies t[j] != '\\' by {
            assert(t[j] == s[j + 1]);
        }
        lemma_unescape_drops_quotes(t);
        assert(s =~= seq![s[0]] + t);
        t.lemma_filter_prepend(s[0], |c: char| c != '"');
        if s[0] == '"' {
            assert(Seq::<char>::empty() + t.filter(|c: char| c != '"') =~= t.filter(
                |c: char| c != '"',
            ));
        }
    }
}

/// An `Environment=` value with no quote, space or tab is one assignment.
pub proof fn lemma_env_single(v: Seq<char>)
    requires
        v.len() > 0,
        forall|j: int| 0 <= j < v.len() ==> v[j] != '"' && v[j] != ' ' && v[j] != '\t',
    ensures
        env_words(v) == seq![v],
{
    lemma_env_scan_word(v);
}

proof fn lemma_env_scan_word(v: Seq<char>)
    requires
        forall|j: int| 0 <= j < v.len() ==> v[j] != '"' && v[j] != ' ' && v[j] != '\t',
    ensures
        env_scan(v) == (Seq::<Seq<char>>::empty(), v, false),
    decreases v.len(),
{
    if v.len() > 0 {
        let p = v.drop_last();
        assert forall|j: int| 0 <= j < p.len() implies p[j] != '"' && p[j] != ' ' && p[j]
            != '\t' by {
            assert(p[j] == v[j]);
        }
        lemma_env_scan_word(p);
        assert(p.push(v.last()) =~= v);
    }
}

/// Whether `v` reads back unchanged as a value, also of `Exec*=`: it holds
/// no line break, no double quote and no backslash, and has no whitespace
/// at either end.
pub open spec fn is_plain_exec_value(v: Seq<char>) -> bool {
    &&& trim(v) == v
    &&& no_newline(v)
    &&& no_quoting(v)
}

/// The text of a service unit with a description, a command and a user.
pub open spec fn service_text(d: Seq<char>, c: Seq<char>, u: Seq<char>) -> Seq<char> {
    terminated(
        seq![
            header_line("Unit"@),
            entry_line("Description"@, d),
            header_line("Service"@),
            entry_line("ExecStart"@, c),
            entry_line("User"@, u),
        ],
    )
}

/// Reading back what a service unit says: the text
/// `[Unit]`, `Description=d`, `[Service]`, `ExecStart=c`, `User=u` gives a
/// service with description `d`, command `c` and user `u`, when each is a
/// plain value.
pub proof fn lemma_service_reads_back(d: Seq<char>, c: Seq<char>, u: Seq<char>)
    requires
        is_plain_exec_value(d),
        is_plain_exec_value(c),
        is_plain_exec_value(u),
    ensures
        parse_service(service_text(d, c, u)).description == Some(d),
        parse_service(service_text(d, c, u)).exec_start == Some(c),
        parse_service(service_text(d, c, u)).user == Some(u),
{
    reveal_strlit("Unit");
    reveal_strlit("Service");
    reveal_strlit("Description");
    reveal_strlit("ExecStart");
    reveal_strlit("User");
    reveal_strlit("Type");
    reveal_strlit("ExecStop");
    reveal_strlit("ExecReload");
    let ls = seq![
        header_line("Unit"@),
        entry_line("Description"@, d),
        header_line("Service"@),
        entry_line("ExecStart"@, c),
        entry_line("User"@, u),
    ];
    assert(is_plain_value(d) && is_plain_value(c) && is_plain_value(u));
    lemma_value_line("Description"@, d);
    lemma_value_line("ExecStart"@, c);
    lemma_value_line("User"@, u);
    assert(is_plain_line(header_line("Unit"@)));
    assert(is_plain_line(header_line("Service"@)));
    assert forall|i: int| 0 <= i < ls.len() implies is_plain_line(#[trigger] ls[i])
        && !is_continued(ls[i]) by {}
    lemma_text_of_lines(ls);
    assert(is_plain_key("Description"@));
    assert(is_plain_key("ExecStart"@));
    assert(is_plain_key("User"@));
    lemma_header_line(ls.take(0), "Unit"@);
    assert(ls.take(0).push(ls[0]) =~= ls.take(1));
    lemma_entry_line(ls.take(1), "Description"@, d);
    assert(ls.take(1).push(ls[1]) =~= ls.take(2));
    lemma_header_line(ls.take(2), "Service"@);
    assert(ls.take(2).push(ls[2]) =~= ls.take(3));
    lemma_entry_line(ls.take(3), "ExecStart"@, c);
    assert(ls.take(3).push(ls[3]) =~= ls.take(4));
    lemma_entry_line(ls.take(4), "User"@, u);
    assert(ls.take(4).push(ls[4]) =~= ls);
    let e0 = EntryView { section: "Unit"@, key: "Description"@, value: d };
    let e1 = EntryView { section: "Service"@, key: "ExecStart"@, value: c };
    let e2 = EntryView { section: "Service"@, key: "User"@, value: u };
    let es = entries(ls);
    assert(es =~= seq![e0, e1, e2]);
    lemma_unescape_plain(c);
    assert(es.drop_last() =~= seq![e0, e1]);
    assert(es.drop_last().drop_last() =~= seq![e0]);
    assert(seq![e0].drop_last() =~= Seq::<EntryView>::empty());
    let s1 = service_apply(empty_service(), e0);
    assert(s1.description == Some(d));
    let s2 = service_apply(s1, e1);
    assert(s2.description == Some(d) && s2.exec_start == Some(c));
    let s3 = service_apply(s2, e2);
    assert(s3.description == Some(d) && s3.exec_start == Some(c) && s3.user == Some(u));
    assert(service_from(Seq::<EntryView>::empty()) == empty_service());
    assert(service_from(seq![e0]) == s1);
    assert(service_from(seq![e0, e1]) == s2);
    assert(service_from(es) == s3);
}

/// The assignments of every `Environment=` entry of the `[Service]` section
/// of `es`, in order.
pub open spec fn environment_of(es: Seq<EntryView>) -> Seq<Seq<char>>
    decreases es.len(),
{
    if es.len() == 0 {
        seq![]
    } else {
        let prev = environment_of(es.drop_last());
        if es.last().section == "Service"@ && es.last().key == "Environment"@ {
            prev + env_words(es.last().value)
        } else {
            prev
        }
    }
}

/// An optional `Exec*=` value with its quotes taken off.
pub open spec fn unescaped(o: Option<Seq<char>>) -> Option<Seq<char>> {
    match o {
        Some(v) => Some(unescape(v)),
        None => None,
    }
}

/// The section names and keys of a service unit, told apart by their
/// lengths and first characters.
proof fn lemma_service_keys()
    ensures
        "Unit"@.len() == 4 && "Service"@.len() == 7,
        "Description"@.len() == 11 && "Type"@.len() == 4 && "ExecStart"@.len() == 9,
        "ExecStop"@.len() == 8 && "ExecReload"@.len() == 10 && "User"@.len() == 4,
        "Group"@.len() == 5 && "WorkingDirectory"@.len() == 16 && "Environment"@.len() == 11,
        "EnvironmentFile"@.len() == 15 && "PIDFile"@.len() == 7 && "Restart"@.len() == 7,
        "Delegate"@.len() == 8,
        "Type"@ != "User"@,
        "ExecStop"@ != "Delegate"@,
        "PIDFile"@ != "Restart"@,
{
    reveal_strlit("Unit");
    reveal_strlit("Service");
    reveal_strlit("Description");
    reveal_strlit("Type");
    reveal_strlit("ExecStart");
    reveal_strlit("ExecStop");
    reveal_strlit("ExecReload");
    reveal_strlit("User");
    reveal_strlit("Group");
    reveal_strlit("WorkingDirectory");
    reveal_strlit("Environment");
    reveal_strlit("EnvironmentFile");
    reveal_strlit("PIDFile");
    reveal_strlit("Restart");
    reveal_strlit("Delegate");
    assert("Type"@[0] == 'T' && "User"@[0] == 'U');
    assert("ExecStop"@[0] == 'E' && "Delegate"@[0] == 'D');
    assert("PIDFile"@[0] == 'P' && "Restart"@[0] == 'R');
}

/// The service that entries describe, field by field: every key counts only
/// in its own section (`Description` in `[Unit]`, the others in
/// `[Service]`); of each single-valued key the last value wins (for the
/// `Exec*` keys with its quotes taken off), and the assignments of
/// `Environment=` and the values of `EnvironmentFile=` append in order.
pub proof fn lemma_service_fields(es: Seq<EntryView>)
    ensures
        service_from(es).description == last_value_of(es, "Unit"@, "Description"@),
        service_from(es).service_type == last_value_of(es, "Service"@, "Type"@),
        service_from(es).exec_start == unescaped(last_value_of(es, "Service"@, "ExecStart"@)),
        service_from(es).exec_stop == unescaped(last_value_of(es, "Service"@, "ExecStop"@)),
        service_from(es).exec_reload == unescaped(last_value_of(es, "Service"@, "ExecReload"@)),
        service_from(es).user == last_value_of(es, "Service"@, "User"@),
        service_from(es).group == last_value_of(es, "Service"@, "Group"@),
        service_from(es).working_directory == last_value_of(
            es,
            "Service"@,
            "WorkingDirectory"@,
        ),
        service_from(es).environment == environment_of(es),
        service_from(es).environment_file == values_of(es, "Service"@, "EnvironmentFile"@),
        service_from(es).pid_file == last_value_of(es, "Service"@, "PIDFile"@),
        service_from(es).restart == last_value_of(es, "Service"@, "Restart"@),
        service_from(es).delegate == last_value_of(es, "Service"@, "Delegate"@),
    decreases es.len(),
{
    lemma_service_keys();
    if es.len() > 0 {
        let p = es.drop_last();
        lemma_service_fields(p);
        assert(service_from(es) == service_apply(service_from(p), es.last()));
    } else {
        assert(empty_service().environment =~= environment_of(es));
    }
}

/// Whether `c` separates assignments outside quotes: a space or a tab.
pub open spec fn is_blank(c: char) -> bool {
    c == ' ' || c == '\t'
}

/// The finished pieces of `s` split at spaces and tabs, and the piece that
/// the end of `s` interrupts.
pub open spec fn blank_scan(s: Seq<char>) -> (Seq<Seq<char>>, Seq<char>)
    decreases s.len(),
{
    if s.len() == 0 {
        (seq![], seq![])
    } else {
        let (done, cur) = blank_scan(s.drop_last());
        if is_blank(s.last()) {
            if cur.len() > 0 {
                (done.push(cur), seq![])
            } else {
                (done, seq![])
            }
        } else {
            (done, cur.push(s.last()))
        }
    }
}

/// The nonempty pieces of `s` between spaces and tabs, in order.
pub open spec fn blank_split(s: Seq<char>) -> Seq<Seq<char>> {
    let (done, cur) = blank_scan(s);
    if cur.len() > 0 {
        done.push(cur)
    } else {
        done
    }
}

/// The characters of an `Environment=` value that the assignments keep, and
/// whether a double quote is open after it: quotes go, and so do spaces and
/// tabs outside quotes (an unclosed quote runs to the end).
pub open spec fn kept_scan(s: Seq<char>) -> (Seq<char>, bool)
    decreases s.len(),
{
    if s.len() == 0 {
        (seq![], false)
    } else {
        let (out, quoted) = kept_scan(s.drop_last());
        let c = s.last();
        if c == '"' {
            (out, !quoted)
        } else if is_blank(c) && !quoted {
            (out, quoted)
        } else {
            (out.push(c), quoted)
        }
    }
}

/// The pieces of `ws`, one after the other.
pub open spec fn concat(ws: Seq<Seq<char>>) -> Seq<char>
    decreases ws.len(),
{
    if ws.len() == 0 {
        seq![]
    } else {
        concat(ws.drop_last()) + ws.last()
    }
}

/// Whether `w` holds no double quote.
pub open spec fn quote_free(w: Seq<char>) -> bool {
    forall|j: int| 0 <= j < w.len() ==> w[j] != '"'
}

proof fn lemma_env_scan_unquoted(s: Seq<char>)
    requires
        quote_free(s),
    ensures
        env_scan(s) == (blank_scan(s).0, blank_scan(s).1, false),
    decreases s.len(),
{
    if s.len() > 0 {
        let p = s.drop_last();
        assert forall|j: int| 0 <= j < p.len() implies p[j] != '"' by {
            assert(p[j] == s[j]);
        }
        lemma_env_scan_unquoted(p);
    }
}

/// Without double quotes, the assignments of an `Environment=` value are
/// its nonempty pieces between spaces and tabs (other whitespace stays in
/// the pieces).
pub proof fn lemma_env_unquoted(s: Seq<char>)
    requires
        quote_free(s),
    ensures
        env_words(s) == blank_split(s),
{
    lemma_env_scan_unquoted(s);
}

proof fn lemma_env_scan_kept(s: Seq<char>)
    ensures
        concat(env_scan(s).0) + env_scan(s).1 == kept_scan(s).0,
        env_scan(s).2 == kept_scan(s).1,
        forall|i: int|
            0 <= i < env_scan(s).0.len() ==> (#[trigger] env_scan(s).0[i]).len() > 0 && quote_free(
                env_scan(s).0[i],
            ),
        quote_free(env_scan(s).1),
    decreases s.len(),
{
    if s.len() > 0 {
        let p = s.drop_last();
        lemma_env_scan_kept(p);
        let (done, cur, quoted) = env_scan(p);
        let c = s.last();
        if c == '"' {
        } else if is_blank(c) && !quoted {
            if cur.len() > 0 {
                assert(concat(done.push(cur)) == concat(done) + cur) by {
                    assert(done.push(cur).drop_last() =~= done);
                }
                assert(concat(done.push(cur)) + seq![] =~= concat(done) + cur);
                let d2 = done.push(cur);
                assert forall|i: int| 0 <= i < d2.len() implies (#[trigger] d2[i]).len() > 0
                    && quote_free(d2[i]) by {
                    if i < done.len() {
                        assert(d2[i] == done[i]);
                    }
                }
            }
        } else {
            assert(concat(done) + cur.push(c) =~= (concat(done) + cur).push(c));
            assert forall|j: int| 0 <= j < cur.push(c).len() implies cur.push(c)[j] != '"' by {
                if j < cur.len() {
                    assert(cur.push(c)[j] == cur[j]);
                }
            }
        }
    }
}

/// The assignments of an `Environment=` value are nonempty and hold no
/// double quote, and together they are the value without its double quotes
/// and without the spaces and tabs that stand outside quotes.
pub proof fn lemma_env_words_concat(s: Seq<char>)
    ensures
        forall|i: int|
            0 <= i < env_words(s).len() ==> (#[trigger] env_words(s)[i]).len() > 0 && quote_free(
                env_words(s)[i],
            ),
        concat(env_words(s)) == kept_scan(s).0,
{
    lemma_env_scan_kept(s);
    let (done, cur, quoted) = env_scan(s);
    if cur.len() > 0 {
        let w = done.push(cur);
        assert(w.drop_last() =~= done);
        assert forall|i: int| 0 <= i < w.len() implies (#[trigger] w[i]).len() > 0 && quote_free(
            w[i],
        ) by {
            if i < done.len() {
                assert(w[i] == done[i]);
            }
        }
    } else {
        assert(concat(done) + cur =~= concat(done));
    }
}

/// `s` without its double quotes.
pub open spec fn without_quotes(s: Seq<char>) -> Seq<char>
    decreases s.len(),
{
    if s.len() == 0 {
        seq![]
    } else if s.last() == '"' {
        without_quotes(s.drop_last())
    } else {
        without_quotes(s.drop_last()).push(s.last())
    }
}

/// Whether `s` holds no space and no tab.
pub open spec fn blank_free(s: Seq<char>) -> bool {
    forall|j: int| 0 <= j < s.len() ==> s[j] != ' ' && s[j] != '\t'
}

proof fn lemma_env_scan_blank_free(s: Seq<char>)
    requires
        blank_free(s),
    ensures
        env_scan(s).0 == Seq::<Seq<char>>::empty(),
        env_scan(s).1 == without_quotes(s),
    decreases s.len(),
{
    if s.len() > 0 {
        let p = s.drop_last();
        assert forall|j: int| 0 <= j < p.len() implies p[j] != ' ' && p[j] != '\t' by {
            assert(p[j] == s[j]);
        }
        lemma_env_scan_blank_free(p);
        assert(s[s.len() - 1] != ' ' && s[s.len() - 1] != '\t');
    }
}

/// A double quote never ends an assignment, it only groups: a value with
/// no space and no tab, quoted anywhere or not at all, is one assignment,
/// the value without its double quotes (none when nothing else is left).
pub proof fn lemma_env_blank_free(s: Seq<char>)
    requires
        blank_free(s),
    ensures
        env_words(s) == if without_quotes(s).len() > 0 {
            seq![without_quotes(s)]
        } else {
            Seq::<Seq<char>>::empty()
        },
{
    lemma_env_scan_blank_free(s);
    assert(Seq::<Seq<char>>::empty().push(without_quotes(s)) =~= seq![without_quotes(s)]);
}

proof fn lemma_without_quotes_concat(a: Seq<char>, b: Seq<char>)
    ensures
        without_quotes(a + b) == without_quotes(a) + without_quotes(b),
    decreases b.len(),
{
    if b.len() == 0 {
        assert(a + b =~= a);
        assert(without_quotes(a) + without_quotes(b) =~= without_quotes(a));
    } else {
        assert((a + b).drop_last() =~= a + b.drop_last());
        assert((a + b).last() == b.last());
        lemma_without_quotes_concat(a, b.drop_last());
        assert(without_quotes(a) + without_quotes(b.drop_last()).push(b.last()) =~= (
        without_quotes(a) + without_quotes(b.drop_last())).push(b.last()));
    }
}

proof fn lemma_without_quotes_free(a: Seq<char>)
    requires
        quote_free(a),
    ensures
        without_quotes(a) == a,
    decreases a.len(),
{
    if a.len() > 0 {
        let p = a.drop_last();
        assert forall|j: int| 0 <= j < p.len() implies p[j] != '"' by {
            assert(p[j] == a[j]);
        }
        lemma_without_quotes_free(p);
        assert(a[a.len() - 1] != '"');
        assert(p.push(a.last()) =~= a);
    }
}

/// An assignment with a quoted value, `K="V"`, is the one assignment `KV`
/// when neither part holds a quote, a space or a tab.
pub proof fn lemma_env_quoted_value(k: Seq<char>, v: Seq<char>)
    requires
        quote_free(k) && blank_free(k),
        quote_free(v) && blank_free(v),
        k.len() + v.len() > 0,
    ensures
        env_words(k + seq!['"'] + v + seq!['"']) == seq![k + v],
{
    let s = k + seq!['"'] + v + seq!['"'];
    assert forall|j: int| 0 <= j < s.len() implies s[j] != ' ' && s[j] != '\t' by {
        if j < k.len() {
            assert(s[j] == k[j]);
        } else if j == k.len() {
        } else if j < k.len() + 1 + v.len() {
            assert(s[j] == v[j - k.len() - 1]);
        }
    }
    lemma_without_quotes_concat(k + seq!['"'] + v, seq!['"']);
    lemma_without_quotes_concat(k + seq!['"'], v);
    lemma_without_quotes_concat(k, seq!['"']);
    lemma_without_quotes_free(k);
    lemma_without_quotes_free(v);
    assert(without_quotes(seq!['"']) == Seq::<char>::empty()) by {
        assert(seq!['"'].drop_last() =~= Seq::<char>::empty());
        assert(without_quotes(seq!['"'].drop_last()) == Seq::<char>::empty());
        assert(seq!['"'].last() == '"');
    }
    assert(k + Seq::<char>::empty() + v + Seq::<char>::empty() =~= k + v);
    lemma_env_blank_free(s);
}

} // verus!
