//! `.mount` units, and the `/etc/fstab` lines that stand for them.
use vstd::prelude::*;

use crate::syntax::{
    entries, entries_of, entry_line, entry_views, header_line, is_continued, is_plain_key,
    is_plain_line, is_plain_value, join_continuation_lines, last_value_of, lemma_entry_line,
    lemma_header_line, lemma_text_of_lines, lemma_value_line, terminated, Entry, EntryView,
};
use crate::text::{
    chars_of, eq_str, int_text, lines, opt_view, parse_i32, parse_i32_chars, push_int, push_str,
    push_string, starts_with, string_of,
};

verus! {

/// A parsed `.mount` unit.
#[derive(Debug)]
pub struct MountPoint {
    pub description: Option<String>,
    pub what: Option<String>,
    pub where_mount: Option<String>,
    pub fs_type: Option<String>,
    pub options: Option<String>,
    pub dump: i32,
    pub pass: i32,
    pub directory_mode: Option<String>,
}

/// What a [`MountPoint`] holds, as character sequences.
pub struct MountPointView {
    pub description: Option<Seq<char>>,
    pub what: Option<Seq<char>>,
    pub where_mount: Option<Seq<char>>,
    pub fs_type: Option<Seq<char>>,
    pub options: Option<Seq<char>>,
    pub dump: i32,
    pub pass: i32,
    pub directory_mode: Option<Seq<char>>,
}

impl View for MountPoint {
    type V = MountPointView;

    open spec fn view(&self) -> MountPointView {
        MountPointView {
            description: opt_view(self.description),
            what: opt_view(self.what),
            where_mount: opt_view(self.where_mount),
            fs_type: opt_view(self.fs_type),
            options: opt_view(self.options),
            dump: self.dump,
            pass: self.pass,
            directory_mode: opt_view(self.directory_mode),
        }
    }
}

/// The mount point with nothing set.
pub open spec fn empty_mount() -> MountPointView {
    MountPointView {
        description: None,
        what: None,
        where_mount: None,
        fs_type: None,
        options: None,
        dump: 0,
        pass: 0,
        directory_mode: None,
    }
}

impl MountPoint {
    /// The mount point with nothing set.
    pub fn new() -> (m: MountPoint)
        ensures
            m@ == empty_mount(),
    {
        MountPoint {
            description: None,
            what: None,
            where_mount: None,
            fs_type: None,
            options: None,
            dump: 0,
            pass: 0,
            directory_mode: None,
        }
    }
}

impl Default for MountPoint {
    fn default() -> (r: MountPoint)
        ensures
            r@ == empty_mount(),
    {
        MountPoint::new()
    }
}

/// The number that `str::parse::<i32>` reads from `v`, or 0.
pub open spec fn i32_or_zero(v: Seq<char>) -> i32 {
    match parse_i32(v) {
        Some(n) => n,
        None => 0,
    }
}

/// What the entry `e` changes in `m`.
pub open spec fn mount_apply(m: MountPointView, e: EntryView) -> MountPointView {
    let v = e.value;
    if e.section == "Unit"@ {
        if e.key == "Description"@ {
            MountPointView { description: Some(v), ..m }
        } else {
            m
        }
    } else if e.section == "Mount"@ {
        if e.key == "What"@ {
            MountPointView { what: Some(v), ..m }
        } else if e.key == "Where"@ {
            MountPointView { where_mount: Some(v), ..m }
        } else if e.key == "Type"@ {
            MountPointView { fs_type: Some(v), ..m }
        } else if e.key == "Options"@ {
            MountPointView { options: Some(v), ..m }
        } else if e.key == "Dump"@ {
            MountPointView { dump: i32_or_zero(v), ..m }
        } else if e.key == "PassNo"@ || e.key == "Pass"@ {
            MountPointView { pass: i32_or_zero(v), ..m }
        } else if e.key == "DirectoryMode"@ {
            MountPointView { directory_mode: Some(v), ..m }
        } else {
            m
        }
    } else {
        m
    }
}

/// The mount point that the entries `es` describe, applied in order.
pub open spec fn mount_from(es: Seq<EntryView>) -> MountPointView
    decreases es.len(),
{
    if es.len() == 0 {
        empty_mount()
    } else {
        mount_apply(mount_from(es.drop_last()), es.last())
    }
}

/// The mount point that the text of a `.mount` unit describes.
pub open spec fn parse_mount(input: Seq<char>) -> MountPointView {
    mount_from(entries(lines(crate::syntax::join_continuations(input))))
}

fn i32_or_zero_of(v: &Vec<char>) -> (r: i32)
    ensures
        r == i32_or_zero(v@),
{
    match parse_i32_chars(v) {
        Some(n) => n,
        None => 0,
    }
}

/// Applies the entry `e` to `m`.
fn apply(m: &mut MountPoint, e: &Entry)
    ensures
        final(m)@ == mount_apply(old(m)@, e@),
{
    let v = &e.value;
    if eq_str(&e.section, "Unit") {
        if eq_str(&e.key, "Description") {
            m.description = Some(string_of(v));
        }
    } else if eq_str(&e.section, "Mount") {
        if eq_str(&e.key, "What") {
            m.what = Some(string_of(v));
        } else if eq_str(&e.key, "Where") {
            m.where_mount = Some(string_of(v));
        } else if eq_str(&e.key, "Type") {
            m.fs_type = Some(string_of(v));
        } else if eq_str(&e.key, "Options") {
            m.options = Some(string_of(v));
        } else if eq_str(&e.key, "Dump") {
            m.dump = i32_or_zero_of(v);
        } else if eq_str(&e.key, "PassNo") || eq_str(&e.key, "Pass") {
            m.pass = i32_or_zero_of(v);
        } else if eq_str(&e.key, "DirectoryMode") {
            m.directory_mode = Some(string_of(v));
        }
    }
}

/// Reads the text of a `.mount` unit.
pub fn parse(input: &str) -> (m: MountPoint)
    ensures
        m@ == parse_mount(input@),
{
    let chars = chars_of(input);
    let joined = join_continuation_lines(&chars);
    let es = entries_of(&joined);
    let ghost ev = entry_views(es@);
    let mut m = MountPoint::new();
    for i in 0..es.len()
        invariant
            ev == entry_views(es@),
            ev == entries(lines(joined@)),
            m@ == mount_from(ev.take(i as int)),
    {
        assert(ev.take(i + 1).drop_last() =~= ev.take(i as int));
        apply(&mut m, &es[i]);
    }
    assert(ev.take(es@.len() as int) =~= ev);
    m
}

/// The lines with backslash-continued lines joined.
pub fn join_continuations(input: &str) -> (r: String)
    ensures
        r@ == crate::syntax::join_continuations(input@),
{
    let chars = chars_of(input);
    string_of(&join_continuation_lines(&chars))
}

/// `o`, or `default` when there is none.
pub open spec fn or_default(o: Option<Seq<char>>, default: Seq<char>) -> Seq<char> {
    match o {
        Some(s) => s,
        None => default,
    }
}

/// The fstab line of `m`, its six fields separated by tabs.
pub open spec fn fields_text(m: MountPointView) -> Seq<char> {
    or_default(m.what, "none"@) + "\t"@ + or_default(m.where_mount, "/mnt/unknown"@) + "\t"@
        + or_default(m.fs_type, "auto"@) + "\t"@ + or_default(m.options, "defaults"@) + "\t"@
        + int_text(m.dump as int) + "\t"@ + int_text(m.pass as int) + "\n"@
}

/// The `/etc/fstab` text for `m`: comments with the description and the
/// directory mode, then one line of six tab-separated fields, with `none`,
/// `/mnt/unknown`, `auto` and `defaults` for what is not set.
pub open spec fn fstab_text(m: MountPointView) -> Seq<char> {
    let description = match m.description {
        Some(d) => "# "@ + d + "\n"@,
        None => seq![],
    };
    let mode = match m.directory_mode {
        Some(dm) => "# DirectoryMode="@ + dm + "\n"@,
        None => seq![],
    };
    description + mode + fields_text(m)
}

fn push_or(buf: &mut Vec<char>, o: &Option<String>, default: &str)
    ensures
        final(buf)@ == old(buf)@ + or_default(opt_view(*o), default@),
{
    match o {
        Some(s) => push_string(buf, s),
        None => push_str(buf, default),
    }
}

/// Writes the `/etc/fstab` text for `m`.
pub fn to_fstab(m: &MountPoint) -> (out: String)
    ensures
        out@ == fstab_text(m@),
{
    let mut buf: Vec<char> = Vec::new();
    match &m.description {
        Some(d) => {
            push_str(&mut buf, "# ");
            push_string(&mut buf, d);
            push_str(&mut buf, "\n");
        },
        None => {},
    }
    match &m.directory_mode {
        Some(dm) => {
            push_str(&mut buf, "# DirectoryMode=");
            push_string(&mut buf, dm);
            push_str(&mut buf, "\n");
        },
        None => {},
    }
    push_or(&mut buf, &m.what, "none");
    push_str(&mut buf, "\t");
    push_or(&mut buf, &m.where_mount, "/mnt/unknown");
    push_str(&mut buf, "\t");
    push_or(&mut buf, &m.fs_type, "auto");
    push_str(&mut buf, "\t");
    push_or(&mut buf, &m.options, "defaults");
    push_str(&mut buf, "\t");
    push_int(&mut buf, m.dump);
    push_str(&mut buf, "\t");
    push_int(&mut buf, m.pass);
    push_str(&mut buf, "\n");
    assert(buf@ =~= fstab_text(m@));
    string_of(&buf)
}

// ---------------------------------------------------------------------------
// Laws
// ---------------------------------------------------------------------------
/// The mount point that entries describe has the last `What=`, `Where=`,
/// `Type=`, `Options=`, `Dump=` and `DirectoryMode=` of the `[Mount]`
/// section, and the last description of the `[Unit]` section.
pub proof fn lemma_mount_fields(es: Seq<EntryView>)
    ensures
        mount_from(es).description == last_value_of(es, "Unit"@, "Description"@),
        mount_from(es).directory_mode == last_value_of(es, "Mount"@, "DirectoryMode"@),
        mount_from(es).what == last_value_of(es, "Mount"@, "What"@),
        mount_from(es).where_mount == last_value_of(es, "Mount"@, "Where"@),
        mount_from(es).fs_type == last_value_of(es, "Mount"@, "Type"@),
        mount_from(es).options == last_value_of(es, "Mount"@, "Options"@),
        mount_from(es).dump == match last_value_of(es, "Mount"@, "Dump"@) {
            Some(v) => i32_or_zero(v),
            None => 0,
        },
    decreases es.len(),
{
    reveal_strlit("Unit");
    reveal_strlit("Mount");
    reveal_strlit("What");
    reveal_strlit("Where");
    reveal_strlit("Type");
    reveal_strlit("Options");
    reveal_strlit("Dump");
    reveal_strlit("Description");
    reveal_strlit("DirectoryMode");
    reveal_strlit("PassNo");
    reveal_strlit("Pass");
    assert("Unit"@.len() == 4 && "Mount"@.len() == 5 && "What"@.len() == 4);
    assert("Where"@.len() == 5 && "Type"@.len() == 4 && "Options"@.len() == 7);
    assert("Dump"@.len() == 4 && "DirectoryMode"@.len() == 13 && "PassNo"@.len() == 6);
    assert("Pass"@.len() == 4 && "Description"@.len() == 11);
    assert("Pass"@ != "What"@ && "Pass"@ != "Type"@ && "Pass"@ != "Dump"@) by {
        assert("Pass"@[0] == 'P');
    }
    assert("What"@ != "Type"@ && "What"@ != "Dump"@ && "Type"@ != "Dump"@) by {
        assert("What"@[0] == 'W' && "Type"@[0] == 'T' && "Dump"@[0] == 'D');
    }
    assert("Unit"@ != "Mount"@) by {
        assert("Unit"@[0] == 'U' && "Mount"@[0] == 'M');
    }
    if es.len() > 0 {
        let p = es.drop_last();
        lemma_mount_fields(p);
        assert(mount_from(es) == mount_apply(mount_from(p), es.last()));
    }
}

/// `PassNo=` and `Pass=` are the same setting.
pub proof fn lemma_pass_aliases(m: MountPointView, v: Seq<char>)
    ensures
        mount_apply(m, EntryView { section: "Mount"@, key: "PassNo"@, value: v }) == mount_apply(
            m,
            EntryView { section: "Mount"@, key: "Pass"@, value: v },
        ),
        mount_apply(m, EntryView { section: "Mount"@, key: "Pass"@, value: v }).pass
            == i32_or_zero(v),
{
    reveal_strlit("Unit");
    reveal_strlit("Mount");
    reveal_strlit("What");
    reveal_strlit("Where");
    reveal_strlit("Type");
    reveal_strlit("Options");
    reveal_strlit("Dump");
    reveal_strlit("PassNo");
    reveal_strlit("Pass");
    assert("Unit"@.len() == 4 && "Mount"@.len() == 5 && "What"@.len() == 4);
    assert("Where"@.len() == 5 && "Type"@.len() == 4 && "Options"@.len() == 7);
    assert("Dump"@.len() == 4 && "PassNo"@.len() == 6 && "Pass"@.len() == 4);
    assert("Pass"@ != "What"@ && "Pass"@ != "Type"@ && "Pass"@ != "Dump"@) by {
        assert("Pass"@[0] == 'P' && "What"@[0] == 'W' && "Type"@[0] == 'T' && "Dump"@[0] == 'D');
    }
    assert("Unit"@ != "Mount"@) by {
        assert("Unit"@[0] == 'U' && "Mount"@[0] == 'M');
    }
}

/// The text of a mount unit that says what to mount, where, and its type.
pub open spec fn mount_text(what: Seq<char>, at: Seq<char>, fs: Seq<char>) -> Seq<char> {
    terminated(
        seq![
            header_line("Mount"@),
            entry_line("What"@, what),
            entry_line("Where"@, at),
            entry_line("Type"@, fs),
        ],
    )
}

/// From a mount unit to its fstab line: the text `[Mount]`, `What=w`,
/// `Where=p`, `Type=t` becomes the line `w`, `p`, `t`, `defaults`, `0`,
/// `0`, separated by tabs, when each value has no line break, no backslash
/// at its end, and no whitespace at either end.
pub proof fn lemma_mount_to_fstab(what: Seq<char>, at: Seq<char>, fs: Seq<char>)
    requires
        is_plain_value(what),
        is_plain_value(at),
        is_plain_value(fs),
    ensures
        fstab_text(parse_mount(mount_text(what, at, fs))) == what + "\t"@ + at + "\t"@ + fs
            + "\t"@ + "defaults"@ + "\t"@ + int_text(0) + "\t"@ + int_text(0) + "\n"@,
{
    reveal_strlit("Unit");
    reveal_strlit("Mount");
    reveal_strlit("What");
    reveal_strlit("Where");
    reveal_strlit("Type");
    assert("Unit"@.len() == 4 && "Mount"@.len() == 5 && "What"@.len() == 4);
    assert("Where"@.len() == 5 && "Type"@.len() == 4);
    assert("What"@ != "Type"@) by {
        assert("What"@[0] == 'W' && "Type"@[0] == 'T');
    }
    assert("Unit"@ != "Mount"@) by {
        assert("Unit"@[0] == 'U' && "Mount"@[0] == 'M');
    }
    let ls = seq![
        header_line("Mount"@),
        entry_line("What"@, what),
        entry_line("Where"@, at),
        entry_line("Type"@, fs),
    ];
    lemma_value_line("What"@, what);
    lemma_value_line("Where"@, at);
    lemma_value_line("Type"@, fs);
    assert(is_plain_line(header_line("Mount"@)));
    assert forall|i: int| 0 <= i < ls.len() implies is_plain_line(#[trigger] ls[i])
        && !is_continued(ls[i]) by {}
    lemma_text_of_lines(ls);
    assert(is_plain_key("What"@));
    assert(is_plain_key("Where"@));
    assert(is_plain_key("Type"@));
    lemma_header_line(ls.take(0), "Mount"@);
    assert(ls.take(0).push(ls[0]) =~= ls.take(1));
    lemma_entry_line(ls.take(1), "What"@, what);
    assert(ls.take(1).push(ls[1]) =~= ls.take(2));
    lemma_entry_line(ls.take(2), "Where"@, at);
    assert(ls.take(2).push(ls[2]) =~= ls.take(3));
    lemma_entry_line(ls.take(3), "Type"@, fs);
    assert(ls.take(3).push(ls[3]) =~= ls);
    let e0 = EntryView { section: "Mount"@, key: "What"@, value: what };
    let e1 = EntryView { section: "Mount"@, key: "Where"@, value: at };
    let e2 = EntryView { section: "Mount"@, key: "Type"@, value: fs };
    let es = entries(ls);
    assert(es =~= seq![e0, e1, e2]);
    assert(es.drop_last() =~= seq![e0, e1]);
    assert(seq![e0, e1].drop_last() =~= seq![e0]);
    assert(seq![e0].drop_last() =~= Seq::<EntryView>::empty());
    let m1 = mount_apply(empty_mount(), e0);
    let m2 = mount_apply(m1, e1);
    let m3 = mount_apply(m2, e2);
    assert(mount_from(Seq::<EntryView>::empty()) == empty_mount());
    assert(mount_from(seq![e0]) == m1);
    assert(mount_from(seq![e0, e1]) == m2);
    assert(mount_from(es) == m3);
    assert(m3 == MountPointView { what: Some(what), where_mount: Some(at), fs_type: Some(fs), ..empty_mount() });
}

/// The fstab text opens with `# d` on a line of its own for a mount point
/// with the description `d`, whether or not a directory mode is set; a
/// `# DirectoryMode=` line for the mode comes after it; and the text ends
/// with the one fstab line, its six fields separated by tabs.
pub proof fn lemma_fstab_comments(m: MountPointView)
    ensures
        match m.description {
            Some(d) => starts_with(fstab_text(m), "# "@ + d + "\n"@),
            None => true,
        },
        match (m.description, m.directory_mode) {
            (None, Some(dm)) => starts_with(fstab_text(m), "# DirectoryMode="@ + dm + "\n"@),
            (Some(d), Some(dm)) => starts_with(
                fstab_text(m),
                "# "@ + d + "\n# DirectoryMode="@ + dm + "\n"@,
            ),
            _ => true,
        },
        m.description is None && m.directory_mode is None ==> fstab_text(m) == or_default(
            m.what,
            "none"@,
        ) + seq!['\t'] + or_default(m.where_mount, "/mnt/unknown"@) + seq!['\t'] + or_default(
            m.fs_type,
            "auto"@,
        ) + seq!['\t'] + or_default(m.options, "defaults"@) + seq!['\t'] + int_text(
            m.dump as int,
        ) + seq!['\t'] + int_text(m.pass as int) + seq!['\n'],
{
    let description = match m.description {
        Some(d) => "# "@ + d + "\n"@,
        None => seq![],
    };
    let mode = match m.directory_mode {
        Some(dm) => "# DirectoryMode="@ + dm + "\n"@,
        None => seq![],
    };
    let rest = fields_text(m);
    let t = fstab_text(m);
    lemma_prefix(description, mode + rest);
    assert(description + (mode + rest) =~= t);
    match (m.description, m.directory_mode) {
        (Some(d), Some(dm)) => {
            reveal_strlit("\n# DirectoryMode=");
            reveal_strlit("# DirectoryMode=");
            reveal_strlit("\n");
            assert("# "@ + d + "\n# DirectoryMode="@ + dm + "\n"@ =~= description + mode);
            lemma_prefix(description + mode, rest);
        },
        (None, _) => {
            lemma_prefix(mode, rest);
            assert(description + mode + rest =~= mode + rest);
            if m.directory_mode is None {
                lemma_fields_text(m);
                assert(mode + rest =~= rest);
            }
        },
        _ => {},
    }
}

proof fn lemma_fields_text(m: MountPointView)
    ensures
        fields_text(m) == or_default(m.what, "none"@) + seq!['\t'] + or_default(
            m.where_mount,
            "/mnt/unknown"@,
        ) + seq!['\t'] + or_default(m.fs_type, "auto"@) + seq!['\t'] + or_default(
            m.options,
            "defaults"@,
        ) + seq!['\t'] + int_text(m.dump as int) + seq!['\t'] + int_text(m.pass as int) + seq![
            '\n',
        ],
{
    reveal_strlit("\t");
    reveal_strlit("\n");
    assert("\t"@ =~= seq!['\t']);
    assert("\n"@ =~= seq!['\n']);
}

proof fn lemma_prefix(a: Seq<char>, b: Seq<char>)
    ensures
        starts_with(a + b, a),
{
    assert((a + b).take(a.len() as int) =~= a);
}

} // verus!
