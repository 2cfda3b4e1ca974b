//! The syntax that systemd unit files share: backslash-continued lines,
//! comments, `[Section]` headers and `Key=Value` entries.
use vstd::prelude::*;

use crate::text::{
    copy_range, find_first, first_index, is_ws, lemma_first_index_at, lemma_trim_unchanged, lines,
    lines_scan, push_chars, push_range, seqs, split_lines, strip_cr, trim, trim_end, trim_end_index,
    trim_start, trim_start_index, trimmed, trimmed_range,
};

verus! {

// ---------------------------------------------------------------------------
// Continuation lines
// ---------------------------------------------------------------------------
/// Whether `line` is continued on the next one: it ends with a backslash.
pub open spec fn is_continued(line: Seq<char>) -> bool {
    line.len() > 0 && line.last() == '\\'
}

/// The text finished so far, and the pending continued line, after `ls`.
pub open spec fn join_scan(ls: Seq<Seq<char>>) -> (Seq<char>, Seq<char>)
    decreases ls.len(),
{
    if ls.len() == 0 {
        (seq![], seq![])
    } else {
        let (result, carry) = join_scan(ls.drop_last());
        let line = ls.last();
        if is_continued(line) {
            (result, carry + trim(line.drop_last()) + seq![' '])
        } else if carry.len() == 0 {
            (result + line + seq!['\n'], carry)
        } else {
            (result + carry + trim_start(line) + seq!['\n'], seq![])
        }
    }
}

/// The lines of `s`, each ended by `'\n'`, with every line that ends in a
/// backslash joined to the next one: the backslash goes, the pieces are
/// trimmed and joined by one space.
pub open spec fn join_continuations(s: Seq<char>) -> Seq<char> {
    let (result, carry) = join_scan(lines(s));
    if carry.len() == 0 {
        result
    } else {
        result + trim_end(carry) + seq!['\n']
    }
}

/// The lines of `s` with backslash-continued lines joined.
pub fn join_continuation_lines(s: &Vec<char>) -> (r: Vec<char>)
    ensures
        r@ == join_continuations(s@),
{
    let ls = split_lines(s);
    let ghost all = seqs(ls@);
    let mut result: Vec<char> = Vec::new();
    let mut carry: Vec<char> = Vec::new();
    for i in 0..ls.len()
        invariant
            all == seqs(ls@),
            all == lines(s@),
            (result@, carry@) == join_scan(all.take(i as int)),
    {
        assert(all.take(i + 1).drop_last() =~= all.take(i as int));
        assert(all.take(i + 1).last() == ls[i as int]@);
        let line = &ls[i];
        let n = line.len();
        if n > 0 && line[n - 1] == '\\' {
            assert(line@.drop_last() =~= line@.subrange(0, n - 1));
            let a = trim_start_index(line, 0, n - 1);
            let b = trim_end_index(line, a, n - 1);
            push_range(&mut carry, line, a, b);
            carry.push(' ');
        } else if carry.len() == 0 {
            push_chars(&mut result, line);
            result.push('\n');
        } else {
            assert(line@.subrange(0, n as int) =~= line@);
            let a = trim_start_index(line, 0, n);
            push_range(&mut carry, line, a, n);
            push_chars(&mut result, &carry);
            result.push('\n');
            carry = Vec::new();
        }
    }
    assert(all.take(ls@.len() as int) =~= all);
    if carry.len() > 0 {
        assert(carry@.subrange(0, carry@.len() as int) =~= carry@);
        let b = trim_end_index(&carry, 0, carry.len());
        push_range(&mut result, &carry, 0, b);
        result.push('\n');
    }
    result
}

// ---------------------------------------------------------------------------
// Lines
// ---------------------------------------------------------------------------
/// What a line of a unit file is.
pub enum LineKind {
    /// Blank, a comment, or neither header nor entry.
    Skip,
    /// `[name]`: the entries after it belong to section `name`.
    Header(Seq<char>),
    /// `key=value`.
    Pair(Seq<char>, Seq<char>),
}

/// What `line` is. After trimming: empty or starting with `'#'`, it is
/// skipped; between `'['` and `']'`, it names a section; otherwise the first
/// `'='` parts it into a key and a value, each trimmed.
pub open spec fn classify(line: Seq<char>) -> LineKind {
    let t = trim(line);
    if t.len() == 0 || t[0] == '#' {
        LineKind::Skip
    } else if t[0] == '[' && t.last() == ']' {
        LineKind::Header(t.subrange(1, t.len() - 1))
    } else {
        match first_index(t, '=') {
            Some(i) => LineKind::Pair(trim(t.take(i)), trim(t.skip(i + 1))),
            None => LineKind::Skip,
        }
    }
}

/// A line of a unit file, classified.
pub enum Line {
    Skip,
    Header(Vec<char>),
    Pair(Vec<char>, Vec<char>),
}

impl View for Line {
    type V = LineKind;

    open spec fn view(&self) -> LineKind {
        match self {
            Line::Skip => LineKind::Skip,
            Line::Header(n) => LineKind::Header(n@),
            Line::Pair(k, v) => LineKind::Pair(k@, v@),
        }
    }
}

/// What `line` is.
pub fn classify_line(line: &Vec<char>) -> (r: Line)
    ensures
        r@ == classify(line@),
{
    let t = trimmed(line);
    let n = t.len();
    if n == 0 || t[0] == '#' {
        Line::Skip
    } else if t[0] == '[' && t[n - 1] == ']' {
        Line::Header(copy_range(&t, 1, n - 1))
    } else {
        match find_first(&t, '=') {
            Some(i) => {
                assert(t@.take(i as int) =~= t@.subrange(0, i as int));
                assert(t@.skip(i + 1) =~= t@.subrange(i + 1, n as int));
                let key = trimmed_range(&t, 0, i);
                let value = trimmed_range(&t, i + 1, n);
                Line::Pair(key, value)
            },
            None => Line::Skip,
        }
    }
}

// ---------------------------------------------------------------------------
// Entries
// ---------------------------------------------------------------------------
/// A `key=value` line of a unit file, with the section it stands in.
pub struct EntryView {
    pub section: Seq<char>,
    pub key: Seq<char>,
    pub value: Seq<char>,
}

/// A `key=value` line of a unit file, with the section it stands in.
pub struct Entry {
    pub section: Vec<char>,
    pub key: Vec<char>,
    pub value: Vec<char>,
}

impl View for Entry {
    type V = EntryView;

    open spec fn view(&self) -> EntryView {
        EntryView { section: self.section@, key: self.key@, value: self.value@ }
    }
}

/// The views of `es`.
pub open spec fn entry_views(es: Seq<Entry>) -> Seq<EntryView> {
    es.map_values(|e: Entry| e@)
}

/// The entries of the lines `ls`, and the section in force after them
/// (none, the empty name, before the first header).
pub open spec fn entries_scan(ls: Seq<Seq<char>>) -> (Seq<EntryView>, Seq<char>)
    decreases ls.len(),
{
    if ls.len() == 0 {
        (seq![], seq![])
    } else {
        let (es, section) = entries_scan(ls.drop_last());
        match classify(ls.last()) {
            LineKind::Skip => (es, section),
            LineKind::Header(name) => (es, name),
            LineKind::Pair(key, value) => (
                es.push(EntryView { section, key, value }),
                section,
            ),
        }
    }
}

/// The `key=value` entries of the lines `ls`, in order, each with the section
/// of the last header before it.
pub open spec fn entries(ls: Seq<Seq<char>>) -> Seq<EntryView> {
    entries_scan(ls).0
}

/// The entries of the lines of `text`.
pub fn entries_of(text: &Vec<char>) -> (r: Vec<Entry>)
    ensures
        entry_views(r@) == entries(lines(text@)),
{
    let ls = split_lines(text);
    let ghost all = seqs(ls@);
    let mut es: Vec<Entry> = Vec::new();
    let mut section: Vec<char> = Vec::new();
    for i in 0..ls.len()
        invariant
            all == seqs(ls@),
            all == lines(text@),
            (entry_views(es@), section@) == entries_scan(all.take(i as int)),
    {
        assert(all.take(i + 1).drop_last() =~= all.take(i as int));
        assert(all.take(i + 1).last() == ls[i as int]@);
        match classify_line(&ls[i]) {
            Line::Skip => {},
            Line::Header(name) => {
                section = name;
            },
            Line::Pair(key, value) => {
                let ghost before = entry_views(es@);
                let sec = copy_range(&section, 0, section.len());
                assert(section@.subrange(0, section@.len() as int) =~= section@);
                es.push(Entry { section: sec, key, value });
                assert(entry_views(es@) =~= before.push(es@.last()@));
            },
        }
    }
    assert(all.take(ls@.len() as int) =~= all);
    es
}

// ---------------------------------------------------------------------------
// Laws
// ---------------------------------------------------------------------------
/// The values of the entries of `es` with section `section` and key `key`,
/// in order.
pub open spec fn values_of(es: Seq<EntryView>, section: Seq<char>, key: Seq<char>) -> Seq<
    Seq<char>,
>
    decreases es.len(),
{
    if es.len() == 0 {
        seq![]
    } else {
        let prev = values_of(es.drop_last(), section, key);
        if es.last().section == section && es.last().key == key {
            prev.push(es.last().value)
        } else {
            prev
        }
    }
}

/// The value of the last entry of `es` with section `section` and key `key`.
pub open spec fn last_value_of(es: Seq<EntryView>, section: Seq<char>, key: Seq<char>) -> Option<
    Seq<char>,
>
    decreases es.len(),
{
    if es.len() == 0 {
        None
    } else if es.last().section == section && es.last().key == key {
        Some(es.last().value)
    } else {
        last_value_of(es.drop_last(), section, key)
    }
}

/// The text made of the lines `ls`, each ended by `'\n'`.
pub open spec fn terminated(ls: Seq<Seq<char>>) -> Seq<char>
    decreases ls.len(),
{
    if ls.len() == 0 {
        seq![]
    } else {
        terminated(ls.drop_last()) + ls.last() + seq!['\n']
    }
}

/// The header line `[name]`.
pub open spec fn header_line(name: Seq<char>) -> Seq<char> {
    seq!['['] + name + seq![']']
}

/// The entry line `key=value`.
pub open spec fn entry_line(key: Seq<char>, value: Seq<char>) -> Seq<char> {
    key + seq!['='] + value
}

/// Whether `l` can stand as one line of a text: it holds no `'\n'` and does
/// not end with `'\r'` (which a following line ending would take).
pub open spec fn is_plain_line(l: Seq<char>) -> bool {
    &&& no_newline(l)
    &&& !(l.len() > 0 && l.last() == '\r')
}

proof fn lemma_lines_scan_append(x: Seq<char>, y: Seq<char>)
    requires
        forall|j: int| 0 <= j < y.len() ==> y[j] != '\n',
    ensures
        lines_scan(x + y) == (lines_scan(x).0, lines_scan(x).1 + y),
    decreases y.len(),
{
    if y.len() == 0 {
        assert(x + y =~= x);
        assert(lines_scan(x).1 + y =~= lines_scan(x).1);
    } else {
        assert((x + y).drop_last() =~= x + y.drop_last());
        lemma_lines_scan_append(x, y.drop_last());
        assert((x + y).last() == y.last());
        assert(lines_scan(x).1 + y.drop_last() + seq![y.last()] =~= lines_scan(x).1 + y);
    }
}

/// Reading back the lines of a text made of lines gives those lines: when
/// no line holds a `'\n'` or ends with `'\r'`, the lines of the text that
/// ends each of `ls` with `'\n'` are `ls`.
pub proof fn lemma_lines_of_terminated(ls: Seq<Seq<char>>)
    requires
        forall|i: int| 0 <= i < ls.len() ==> is_plain_line(#[trigger] ls[i]),
    ensures
        lines(terminated(ls)) == ls,
        lines_scan(terminated(ls)) == (ls, Seq::<char>::empty()),
    decreases ls.len(),
{
    if ls.len() > 0 {
        let prev = ls.drop_last();
        let l = ls.last();
        assert forall|i: int| 0 <= i < prev.len() implies is_plain_line(#[trigger] prev[i]) by {
            assert(prev[i] == ls[i]);
        }
        lemma_lines_of_terminated(prev);
        assert(is_plain_line(ls[ls.len() - 1]));
        let x = terminated(prev);
        lemma_lines_scan_append(x, l);
        let t = terminated(ls);
        assert(t == x + l + seq!['\n']);
        assert(t.drop_last() =~= x + l);
        assert(seq![] + l =~= l);
        assert(prev.push(l) =~= ls);
    }
}

/// Whether `l` holds no `'\n'`.
pub open spec fn no_newline(l: Seq<char>) -> bool {
    forall|j: int| 0 <= j < l.len() ==> l[j] != '\n'
}

proof fn lemma_lines_have_no_newline(s: Seq<char>)
    ensures
        forall|i: int| 0 <= i < lines_scan(s).0.len() ==> no_newline(#[trigger] lines_scan(s).0[i]),
        no_newline(lines_scan(s).1),
        forall|i: int| 0 <= i < lines(s).len() ==> no_newline(#[trigger] lines(s)[i]),
    decreases s.len(),
{
    if s.len() > 0 {
        lemma_lines_have_no_newline(s.drop_last());
        let (done, cur) = lines_scan(s.drop_last());
        if s.last() == '\n' {
            assert(no_newline(strip_cr(cur)));
        }
    }
}

/// Joining continuation lines changes nothing in a text where no line is
/// continued but the line endings: the result is the lines of the text,
/// each ended by `'\n'`.
pub proof fn lemma_join_without_continuations(s: Seq<char>)
    requires
        forall|i: int| 0 <= i < lines(s).len() ==> !is_continued(#[trigger] lines(s)[i]),
    ensures
        join_continuations(s) == terminated(lines(s)),
{
    lemma_join_scan_plain(lines(s));
}

proof fn lemma_join_scan_plain(ls: Seq<Seq<char>>)
    requires
        forall|i: int| 0 <= i < ls.len() ==> !is_continued(#[trigger] ls[i]),
    ensures
        join_scan(ls) == (terminated(ls), Seq::<char>::empty()),
    decreases ls.len(),
{
    if ls.len() > 0 {
        let prev = ls.drop_last();
        assert forall|i: int| 0 <= i < prev.len() implies !is_continued(#[trigger] prev[i]) by {
            assert(prev[i] == ls[i]);
        }
        lemma_join_scan_plain(prev);
        assert(!is_continued(ls[ls.len() - 1]));
    }
}

/// The `.service`, `.mount` and `.socket` parsers read a text without
/// continued lines line by line, as the `.timer` parser does: when no line
/// ends with a backslash or a `'\r'`, the lines after joining are the
/// lines of the text.
pub proof fn lemma_joined_lines(s: Seq<char>)
    requires
        forall|i: int|
            0 <= i < lines(s).len() ==> !is_continued(#[trigger] lines(s)[i]) && !(lines(s)[i].len()
                > 0 && lines(s)[i].last() == '\r'),
    ensures
        lines(join_continuations(s)) == lines(s),
{
    lemma_join_without_continuations(s);
    lemma_lines_have_no_newline(s);
    let ls = lines(s);
    assert forall|i: int| 0 <= i < ls.len() implies is_plain_line(#[trigger] ls[i]) by {
        assert(!is_continued(ls[i]));
        assert(no_newline(ls[i]));
    }
    lemma_lines_of_terminated(ls);
}

/// A text written as lines, none continued, none holding a `'\n'` or
/// ending with `'\r'`, reads back as those lines, with or without joining
/// continuation lines.
pub proof fn lemma_text_of_lines(ls: Seq<Seq<char>>)
    requires
        forall|i: int| 0 <= i < ls.len() ==> is_plain_line(#[trigger] ls[i]) && !is_continued(ls[i]),
    ensures
        lines(terminated(ls)) == ls,
        lines(join_continuations(terminated(ls))) == ls,
{
    lemma_lines_of_terminated(ls);
    lemma_joined_lines(terminated(ls));
}

/// A nonempty text that trimming leaves as it is neither starts nor ends
/// with whitespace.
pub proof fn lemma_trimmed_edges(v: Seq<char>)
    requires
        v.len() > 0,
        trim(v) == v,
    ensures
        !is_ws(v[0]),
        !is_ws(v.last()),
{
    if is_ws(v[0]) {
        assert(trim_start(v) == trim_start(v.skip(1)));
        lemma_trim_shorter(v.skip(1));
        lemma_trim_end_shorter(trim_start(v));
        assert(trim(v).len() < v.len());
    }
    if is_ws(v.last()) {
        lemma_trim_start_suffix(v);
    }
}

/// A header line `[name]` names the section of the entries after it.
pub proof fn lemma_header_line(ls: Seq<Seq<char>>, name: Seq<char>)
    ensures
        entries_scan(ls.push(header_line(name))) == (entries(ls), name),
{
    let l = seq!['['] + name + seq![']'];
    lemma_trim_unchanged(l);
    assert(ls.push(l).drop_last() =~= ls);
    assert(l.subrange(1, l.len() - 1) =~= name);
}

/// Whether `v` reads back unchanged as the value of an entry line: no line
/// break in it, no backslash at its end, no whitespace at either end.
pub open spec fn is_plain_value(v: Seq<char>) -> bool {
    &&& trim(v) == v
    &&& no_newline(v)
    &&& !(v.len() > 0 && v.last() == '\\')
}

/// An entry line whose key and value have no line break, and whose value
/// reads back unchanged, is a plain line that continues nothing.
pub proof fn lemma_value_line(k: Seq<char>, v: Seq<char>)
    requires
        is_plain_value(v),
        no_newline(k),
        k.len() > 0,
        k.last() != '\\',
    ensures
        is_plain_line(entry_line(k, v)),
        !is_continued(entry_line(k, v)),
{
    let l = entry_line(k, v);
    assert forall|j: int| 0 <= j < l.len() implies l[j] != '\n' by {
        if j < k.len() {
            assert(l[j] == k[j]);
        } else if j > k.len() {
            assert(l[j] == v[j - k.len() - 1]);
        }
    }
    if v.len() > 0 {
        assert(l.last() == v.last());
        lemma_trimmed_edges(v);
    }
}

/// Whether `k` reads back as a key: nonempty, no `'='` in it, neither
/// starting nor ending with whitespace, and not starting with `'#'` or `'['`.
pub open spec fn is_plain_key(k: Seq<char>) -> bool {
    &&& k.len() > 0
    &&& forall|j: int| 0 <= j < k.len() ==> k[j] != '='
    &&& !is_ws(k[0])
    &&& !is_ws(k.last())
    &&& k[0] != '#'
    &&& k[0] != '['
}

/// A line `key=value` adds one entry with that key and value to those
/// before it, in the section in force, when the key reads back as one and
/// the value has no whitespace at either end.
pub proof fn lemma_entry_line(ls: Seq<Seq<char>>, key: Seq<char>, value: Seq<char>)
    requires
        is_plain_key(key),
        trim(value) == value,
    ensures
        entries_scan(ls.push(entry_line(key, value))) == (
            entries(ls).push(EntryView { section: entries_scan(ls).1, key, value }),
            entries_scan(ls).1,
        ),
{
    let l = entry_line(key, value);
    assert(l[0] == key[0]);
    if value.len() > 0 {
        assert(l.last() == value.last());
        lemma_trimmed_edges(value);
    } else {
        assert(l.last() == '=');
    }
    lemma_trim_unchanged(l);
    let t = l;
    assert(t[key.len() as int] == '=');
    assert forall|j: int| 0 <= j < key.len() implies t[j] != '=' by {
        assert(t[j] == key[j]);
    }
    lemma_first_index_at(t, '=', key.len() as int);
    assert(t.take(key.len() as int) =~= key);
    assert(t.skip(key.len() as int + 1) =~= value);
    lemma_trim_unchanged(key);
    assert(ls.push(l).drop_last() =~= ls);
}

proof fn lemma_trim_start_shorter(s: Seq<char>)
    ensures
        trim_start(s).len() <= s.len(),
    decreases s.len(),
{
    if s.len() > 0 && is_ws(s[0]) {
        lemma_trim_start_shorter(s.skip(1));
    }
}

proof fn lemma_trim_end_shorter(s: Seq<char>)
    ensures
        trim_end(s).len() <= s.len(),
    decreases s.len(),
{
    if s.len() > 0 && is_ws(s.last()) {
        lemma_trim_end_shorter(s.drop_last());
    }
}

proof fn lemma_trim_shorter(s: Seq<char>)
    ensures
        trim_start(s).len() <= s.len(),
        trim_end(s).len() <= s.len(),
        trim(s).len() <= s.len(),
{
    lemma_trim_start_shorter(s);
    lemma_trim_end_shorter(s);
    lemma_trim_end_shorter(trim_start(s));
}

/// When `s` ends with whitespace, trimming takes something away.
proof fn lemma_trim_start_suffix(s: Seq<char>)
    requires
        s.len() > 0,
        is_ws(s.last()),
    ensures
        trim(s) != s,
    decreases s.len(),
{
    let a = trim_start(s);
    lemma_trim_start_keeps_end(s);
    if a.len() > 0 {
        assert(a.last() == s.last());
        lemma_trim_shorter(a.drop_last());
        assert(trim_end(a) == trim_end(a.drop_last()));
        lemma_trim_shorter(s);
    } else {
        lemma_trim_shorter(s);
    }
}

/// Trimming the start keeps the last character of what is left.
proof fn lemma_trim_start_keeps_end(s: Seq<char>)
    ensures
        trim_start(s).len() > 0 ==> trim_start(s).last() == s.last(),
        trim_start(s).len() <= s.len(),
    decreases s.len(),
{
    if s.len() > 0 && is_ws(s[0]) {
        lemma_trim_start_keeps_end(s.skip(1));
    }
}

/// How many of the lines `ls` are not continued.
pub open spec fn ended_lines(ls: Seq<Seq<char>>) -> nat
    decreases ls.len(),
{
    if ls.len() == 0 {
        0
    } else {
        let here: nat = if is_continued(ls.last()) {
            0
        } else {
            1
        };
        ended_lines(ls.drop_last()) + here
    }
}

proof fn lemma_trim_start_no_newline(s: Seq<char>)
    requires
        no_newline(s),
    ensures
        no_newline(trim_start(s)),
    decreases s.len(),
{
    if s.len() > 0 && is_ws(s[0]) {
        assert forall|j: int| 0 <= j < s.skip(1).len() implies s.skip(1)[j] != '\n' by {
            assert(s.skip(1)[j] == s[j + 1]);
        }
        lemma_trim_start_no_newline(s.skip(1));
    }
}

proof fn lemma_trim_end_no_newline(s: Seq<char>)
    requires
        no_newline(s),
    ensures
        no_newline(trim_end(s)),
    decreases s.len(),
{
    if s.len() > 0 && is_ws(s.last()) {
        assert forall|j: int| 0 <= j < s.drop_last().len() implies s.drop_last()[j] != '\n' by {
            assert(s.drop_last()[j] == s[j]);
        }
        lemma_trim_end_no_newline(s.drop_last());
    }
}

/// Two pieces without `'\n'` make a text without `'\n'`, which ends as the
/// second piece does when that is not empty.
pub proof fn lemma_concat_no_newline(a: Seq<char>, b: Seq<char>)
    requires
        no_newline(a),
        no_newline(b),
    ensures
        no_newline(a + b),
        b.len() > 0 ==> (a + b).last() == b.last(),
        b.len() == 0 ==> a + b == a,
{
    if b.len() == 0 {
        assert(a + b =~= a);
    }
    assert forall|j: int| 0 <= j < (a + b).len() implies (a + b)[j] != '\n' by {
        if j >= a.len() {
            assert((a + b)[j] == b[j - a.len()]);
        }
    }
}

/// Adding one line `y` without `'\n'`, and its ending, to a text whose lines
/// are all finished adds one finished line.
proof fn lemma_lines_scan_add_line(x: Seq<char>, y: Seq<char>)
    requires
        no_newline(y),
        lines_scan(x).1.len() == 0,
    ensures
        lines_scan(x + y + seq!['\n']).0.len() == lines_scan(x).0.len() + 1,
        lines_scan(x + y + seq!['\n']).1.len() == 0,
{
    lemma_lines_scan_append(x, y);
    assert((x + y + seq!['\n']).drop_last() =~= x + y);
}

/// What joining the lines `ls` has finished is made of finished lines, one
/// for each line of `ls` that is not continued; the pending continued line
/// holds no `'\n'`, and there is one exactly when the last line of `ls` is
/// continued.
proof fn lemma_join_scan_count(ls: Seq<Seq<char>>)
    requires
        forall|i: int| 0 <= i < ls.len() ==> no_newline(#[trigger] ls[i]),
    ensures
        lines_scan(join_scan(ls).0).0.len() == ended_lines(ls),
        lines_scan(join_scan(ls).0).1.len() == 0,
        no_newline(join_scan(ls).1),
        join_scan(ls).1.len() > 0 <==> (ls.len() > 0 && is_continued(ls.last())),
        join_scan(ls).0.len() == 0 || join_scan(ls).0.last() == '\n',
    decreases ls.len(),
{
    if ls.len() == 0 {
        assert(lines_scan(Seq::<char>::empty()) == (Seq::<Seq<char>>::empty(), Seq::<char>::empty()));
    } else {
        let prev = ls.drop_last();
        assert forall|i: int| 0 <= i < prev.len() implies no_newline(#[trigger] prev[i]) by {
            assert(prev[i] == ls[i]);
        }
        lemma_join_scan_count(prev);
        let (result, carry) = join_scan(prev);
        let line = ls.last();
        assert(no_newline(ls[ls.len() - 1]));
        if is_continued(line) {
            assert forall|j: int| 0 <= j < line.drop_last().len() implies line.drop_last()[j]
                != '\n' by {
                assert(line.drop_last()[j] == line[j]);
            }
            lemma_trim_start_no_newline(line.drop_last());
            lemma_trim_end_no_newline(trim_start(line.drop_last()));
            lemma_concat_no_newline(carry, trim(line.drop_last()));
            lemma_concat_no_newline(carry + trim(line.drop_last()), seq![' ']);
        } else if carry.len() == 0 {
            lemma_lines_scan_add_line(result, line);
        } else {
            lemma_trim_start_no_newline(line);
            lemma_concat_no_newline(carry, trim_start(line));
            lemma_lines_scan_add_line(result, carry + trim_start(line));
            assert(result + carry + trim_start(line) + seq!['\n'] =~= result + (carry
                + trim_start(line)) + seq!['\n']);
        }
    }
}

/// Joining continuation lines leaves one line for each line of the text
/// that does not end in a backslash, and one more when the last line does:
/// each run of continued lines merges with the line after it. The result is
/// empty or ends with `'\n'`.
pub proof fn lemma_joined_line_count(s: Seq<char>)
    ensures
        lines(join_continuations(s)).len() == ended_lines(lines(s)) + if lines(s).len() > 0
            && is_continued(lines(s).last()) {
            1nat
        } else {
            0nat
        },
        join_continuations(s).len() == 0 || join_continuations(s).last() == '\n',
{
    lemma_lines_have_no_newline(s);
    let ls = lines(s);
    lemma_join_scan_count(ls);
    let (result, carry) = join_scan(ls);
    if carry.len() > 0 {
        lemma_trim_end_no_newline(carry);
        lemma_lines_scan_add_line(result, trim_end(carry));
    }
}

/// The text of the lines `a` and then `b` is the text of `a`, then that of `b`.
pub proof fn lemma_terminated_concat(a: Seq<Seq<char>>, b: Seq<Seq<char>>)
    ensures
        terminated(a + b) == terminated(a) + terminated(b),
    decreases b.len(),
{
    if b.len() == 0 {
        assert(a + b =~= a);
        assert(terminated(a) + terminated(b) =~= terminated(a));
    } else {
        assert((a + b).drop_last() =~= a + b.drop_last());
        lemma_terminated_concat(a, b.drop_last());
        assert((a + b).last() == b.last());
        assert(terminated(a) + terminated(b.drop_last()) + b.last() + seq!['\n'] =~= terminated(a)
            + (terminated(b.drop_last()) + b.last() + seq!['\n']));
    }
}

/// The text of one line is that line and its ending.
pub proof fn lemma_terminated_one(x: Seq<char>)
    ensures
        terminated(seq![x]) == x + seq!['\n'],
{
    assert(seq![x].drop_last() =~= Seq::<Seq<char>>::empty());
    assert(terminated(Seq::<Seq<char>>::empty()) == Seq::<char>::empty());
    assert(seq![x].last() == x);
    assert(terminated(seq![x]) == terminated(seq![x].drop_last()) + x + seq!['\n']);
    assert(Seq::<char>::empty() + x + seq!['\n'] =~= x + seq!['\n']);
}

/// Reading the lines of a text made of lines whose final line ending has
/// been dropped gives those lines, but for a last line that was empty.
pub proof fn lemma_lines_of_unterminated(ls: Seq<Seq<char>>)
    requires
        ls.len() > 0,
        forall|i: int| 0 <= i < ls.len() ==> is_plain_line(#[trigger] ls[i]),
    ensures
        lines(terminated(ls).drop_last()) == if ls.last().len() == 0 {
            ls.drop_last()
        } else {
            ls
        },
{
    let p = ls.drop_last();
    let l = ls.last();
    assert forall|i: int| 0 <= i < p.len() implies is_plain_line(#[trigger] p[i]) by {
        assert(p[i] == ls[i]);
    }
    lemma_lines_of_terminated(p);
    assert(is_plain_line(ls[ls.len() - 1]));
    assert(terminated(ls).drop_last() =~= terminated(p) + l);
    lemma_lines_scan_append(terminated(p), l);
    assert(Seq::<char>::empty() + l =~= l);
    if l.len() == 0 {
        assert(terminated(p) + l =~= terminated(p));
    } else {
        assert(p.push(l) =~= ls);
    }
}

} // verus!
