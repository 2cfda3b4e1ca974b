//! `.socket` units, and the s6 run scripts that stand for them.
use vstd::prelude::*;

use crate::activate::{address_kind, address_kind_of, AddressKind, ListenAddress};
use crate::text::last_index;
use crate::syntax::{
    lemma_lines_of_unterminated,
    is_plain_line, lemma_concat_no_newline, no_newline,
    lemma_terminated_concat, lemma_terminated_one, terminated,
    entries, entries_of, entry_views, join_continuation_lines, last_value_of, values_of, Entry,
    EntryView,
};
use crate::text::{
    chars_of, eq_str, lines, opt_view, push_chars, push_str, push_string, string_of, strings_view,
};

verus! {

/// A parsed `.socket` unit.
#[derive(Debug)]
pub struct Socket {
    pub description: Option<String>,
    pub listen_stream: Vec<String>,
    pub listen_datagram: Vec<String>,
    pub listen_seq_packet: Vec<String>,
    pub listen_fifo: Vec<String>,
    pub socket_user: Option<String>,
    pub socket_group: Option<String>,
    pub socket_mode: Option<String>,
    pub service: Option<String>,
}

/// What a [`Socket`] holds, as character sequences.
pub struct SocketView {
    pub description: Option<Seq<char>>,
    pub listen_stream: Seq<Seq<char>>,
    pub listen_datagram: Seq<Seq<char>>,
    pub listen_seq_packet: Seq<Seq<char>>,
    pub listen_fifo: Seq<Seq<char>>,
    pub socket_user: Option<Seq<char>>,
    pub socket_group: Option<Seq<char>>,
    pub socket_mode: Option<Seq<char>>,
    pub service: Option<Seq<char>>,
}

impl View for Socket {
    type V = SocketView;

    open spec fn view(&self) -> SocketView {
        SocketView {
            description: opt_view(self.description),
            listen_stream: strings_view(self.listen_stream@),
            listen_datagram: strings_view(self.listen_datagram@),
            listen_seq_packet: strings_view(self.listen_seq_packet@),
            listen_fifo: strings_view(self.listen_fifo@),
            socket_user: opt_view(self.socket_user),
            socket_group: opt_view(self.socket_group),
            socket_mode: opt_view(self.socket_mode),
            service: opt_view(self.service),
        }
    }
}

/// The socket with nothing set.
pub open spec fn empty_socket() -> SocketView {
    SocketView {
        description: None,
        listen_stream: seq![],
        listen_datagram: seq![],
        listen_seq_packet: seq![],
        listen_fifo: seq![],
        socket_user: None,
        socket_group: None,
        socket_mode: None,
        service: None,
    }
}

impl Socket {
    /// The socket with nothing set.
    pub fn new() -> (s: Socket)
        ensures
            s@ == empty_socket(),
    {
        let s = Socket {
            description: None,
            listen_stream: Vec::new(),
            listen_datagram: Vec::new(),
            listen_seq_packet: Vec::new(),
            listen_fifo: Vec::new(),
            socket_user: None,
            socket_group: None,
            socket_mode: None,
            service: None,
        };
        assert(s@.listen_stream =~= seq![]);
        assert(s@.listen_datagram =~= seq![]);
        assert(s@.listen_seq_packet =~= seq![]);
        assert(s@.listen_fifo =~= seq![]);
        s
    }
}

impl Default for Socket {
    fn default() -> (r: Socket)
        ensures
            r@ == empty_socket(),
    {
        Socket::new()
    }
}

// ---------------------------------------------------------------------------
// Parsing
// ---------------------------------------------------------------------------
/// What the entry `e` changes in `s`.
pub open spec fn socket_apply(s: SocketView, e: EntryView) -> SocketView {
    let v = e.value;
    if e.section == "Unit"@ {
        if e.key == "Description"@ {
            SocketView { description: Some(v), ..s }
        } else {
            s
        }
    } else if e.section == "Socket"@ {
        if e.key == "ListenStream"@ {
            SocketView { listen_stream: s.listen_stream.push(v), ..s }
        } else if e.key == "ListenDatagram"@ {
            SocketView { listen_datagram: s.listen_datagram.push(v), ..s }
        } else if e.key == "ListenSequentialPacket"@ {
            SocketView { listen_seq_packet: s.listen_seq_packet.push(v), ..s }
        } else if e.key == "ListenFIFO"@ {
            SocketView { listen_fifo: s.listen_fifo.push(v), ..s }
        } else if e.key == "SocketUser"@ {
            SocketView { socket_user: Some(v), ..s }
        } else if e.key == "SocketGroup"@ {
            SocketView { socket_group: Some(v), ..s }
        } else if e.key == "SocketMode"@ {
            SocketView { socket_mode: Some(v), ..s }
        } else if e.key == "Service"@ {
            SocketView { service: Some(v), ..s }
        } else {
            s
        }
    } else {
        s
    }
}

/// The socket that the entries `es` describe, applied in order.
pub open spec fn socket_from(es: Seq<EntryView>) -> SocketView
    decreases es.len(),
{
    if es.len() == 0 {
        empty_socket()
    } else {
        socket_apply(socket_from(es.drop_last()), es.last())
    }
}

/// The socket that the text of a `.socket` unit describes.
pub open spec fn parse_socket(input: Seq<char>) -> SocketView {
    socket_from(entries(lines(crate::syntax::join_continuations(input))))
}

fn push_value(dst: &mut Vec<String>, v: &Vec<char>)
    ensures
        strings_view(final(dst)@) == strings_view(old(dst)@).push(v@),
{
    dst.push(string_of(v));
    assert(strings_view(dst@) =~= strings_view(old(dst)@).push(v@));
}

/// Applies the entry `e` to `s`.
fn apply(s: &mut Socket, e: &Entry)
    ensures
        final(s)@ == socket_apply(old(s)@, e@),
{
    let v = &e.value;
    if eq_str(&e.section, "Unit") {
        if eq_str(&e.key, "Description") {
            s.description = Some(string_of(v));
        }
    } else if eq_str(&e.section, "Socket") {
        if eq_str(&e.key, "ListenStream") {
            push_value(&mut s.listen_stream, v);
        } else if eq_str(&e.key, "ListenDatagram") {
            push_value(&mut s.listen_datagram, v);
        } else if eq_str(&e.key, "ListenSequentialPacket") {
            push_value(&mut s.listen_seq_packet, v);
        } else if eq_str(&e.key, "ListenFIFO") {
            push_value(&mut s.listen_fifo, v);
        } else if eq_str(&e.key, "SocketUser") {
            s.socket_user = Some(string_of(v));
        } else if eq_str(&e.key, "SocketGroup") {
            s.socket_group = Some(string_of(v));
        } else if eq_str(&e.key, "SocketMode") {
            s.socket_mode = Some(string_of(v));
        } else if eq_str(&e.key, "Service") {
            s.service = Some(string_of(v));
        }
    }
}

/// Reads the text of a `.socket` unit.
pub fn parse(input: &str) -> (s: Socket)
    ensures
        s@ == parse_socket(input@),
{
    let chars = chars_of(input);
    let joined = join_continuation_lines(&chars);
    let es = entries_of(&joined);
    let ghost ev = entry_views(es@);
    let mut s = Socket::new();
    for i in 0..es.len()
        invariant
            ev == entry_views(es@),
            ev == entries(lines(joined@)),
            s@ == socket_from(ev.take(i as int)),
    {
        assert(ev.take(i + 1).drop_last() =~= ev.take(i as int));
        apply(&mut s, &es[i]);
    }
    assert(ev.take(es@.len() as int) =~= ev);
    s
}

/// The lines with backslash-continued lines joined.
pub fn join_continuations(input: &str) -> (r: String)
    ensures
        r@ == crate::syntax::join_continuations(input@),
{
    let chars = chars_of(input);
    string_of(&join_continuation_lines(&chars))
}

// ---------------------------------------------------------------------------
// s6
// ---------------------------------------------------------------------------
/// The comments that open the run script.
pub open spec fn s6_header(s: SocketView) -> Seq<char> {
    let description = match s.description {
        Some(d) => "# "@ + d + "\n"@,
        None => seq![],
    };
    let activates = match s.service {
        Some(svc) => "# Activates: "@ + svc + "\n"@,
        None => seq![],
    };
    description + activates + "# s6 service directory — run script\n"@
        + "# Place this file at: /etc/s6/servicedir/<name>/run\n"@ + "# chmod +x run\n\n"@
}

/// The comment on how to serve the FIFOs `fifos`, created with `mode`.
pub open spec fn fifo_notes(fifos: Seq<Seq<char>>, mode: Seq<char>) -> Seq<char>
    decreases fifos.len(),
{
    if fifos.len() == 0 {
        seq![]
    } else {
        let lf = fifos.last();
        fifo_notes(fifos.drop_last(), mode) + "# ListenFIFO="@ + lf
            + ": use a separate service with:\n#   mkfifo -m "@ + mode + " "@ + lf + "\n#   cat "@
            + lf + " | your-program\n\n"@
    }
}

/// The comment on each datagram socket of `dgrams`.
pub open spec fn datagram_notes(dgrams: Seq<Seq<char>>) -> Seq<char>
    decreases dgrams.len(),
{
    if dgrams.len() == 0 {
        seq![]
    } else {
        let ld = dgrams.last();
        let note = if ld.len() > 0 && ld[0] == '/' {
            "# ListenDatagram="@ + ld + ": s6-udpserver not yet supported\n"@
        } else {
            "# ListenDatagram="@ + ld + ": use s6-udpserver with -B flag\n"@
        };
        datagram_notes(dgrams.drop_last()) + note
    }
}

/// The server line for the stream address `ls`, handing connections to
/// `handler`.
pub open spec fn server_line(ls: Seq<char>, handler: Seq<char>) -> Seq<char> {
    match address_kind(ls) {
        AddressKind::Tcp(host, port) => "s6-tcpserver -b 128 -B \""@ + host + "\" "@ + port
            + " ./"@ + handler + "\n"@,
        _ => "s6-ipcserver -l0 -- "@ + ls + " ./"@ + handler + "\n"@,
    }
}

/// The execline script that serves the first stream socket, if any.
pub open spec fn s6_program(s: SocketView) -> Seq<char> {
    if s.listen_stream.len() == 0 {
        seq![]
    } else {
        let user = match s.socket_user {
            Some(u) => "s6-setuidgid "@ + u + "\n"@,
            None => seq![],
        };
        let handler = match s.service {
            Some(h) => h,
            None => "your-service-program"@,
        };
        "#!/bin/execlineb -P\n\n"@ + user + server_line(s.listen_stream[0], handler)
    }
}

/// The run script before its final newline is dropped.
pub open spec fn s6_text(s: SocketView) -> Seq<char> {
    let mode = match s.socket_mode {
        Some(m) => m,
        None => "600"@,
    };
    let packets = if s.listen_seq_packet.len() > 0 {
        "# ListenSequentialPacket: mapped as stream\n"@
    } else {
        seq![]
    };
    s6_header(s) + fifo_notes(s.listen_fifo, mode) + datagram_notes(s.listen_datagram) + packets
        + s6_program(s)
}

/// The s6 run script for `s`, without a final newline.
pub open spec fn s6_script(s: SocketView) -> Seq<char> {
    let t = s6_text(s);
    if t.len() > 0 && t.last() == '\n' {
        t.drop_last()
    } else {
        t
    }
}

fn push_header(buf: &mut Vec<char>, s: &Socket)
    ensures
        final(buf)@ == old(buf)@ + s6_header(s@),
{
    match &s.description {
        Some(d) => {
            push_str(buf, "# ");
            push_string(buf, d);
            push_str(buf, "\n");
        },
        None => {},
    }
    match &s.service {
        Some(svc) => {
            push_str(buf, "# Activates: ");
            push_string(buf, svc);
            push_str(buf, "\n");
        },
        None => {},
    }
    push_str(buf, "# s6 service directory — run script\n");
    push_str(buf, "# Place this file at: /etc/s6/servicedir/<name>/run\n");
    push_str(buf, "# chmod +x run\n\n");
    assert(buf@ =~= old(buf)@ + s6_header(s@));
}

fn push_fifo_notes(buf: &mut Vec<char>, fifos: &Vec<String>, mode: &Vec<char>)
    ensures
        final(buf)@ == old(buf)@ + fifo_notes(strings_view(fifos@), mode@),
{
    let ghost start = buf@;
    let ghost all = strings_view(fifos@);
    for i in 0..fifos.len()
        invariant
            all == strings_view(fifos@),
            buf@ == start + fifo_notes(all.take(i as int), mode@),
    {
        assert(all.take(i + 1).drop_last() =~= all.take(i as int));
        assert(all.take(i + 1).last() == fifos@[i as int]@);
        let lf = &fifos[i];
        push_str(buf, "# ListenFIFO=");
        push_string(buf, lf);
        push_str(buf, ": use a separate service with:\n#   mkfifo -m ");
        push_chars(buf, mode);
        push_str(buf, " ");
        push_string(buf, lf);
        push_str(buf, "\n#   cat ");
        push_string(buf, lf);
        push_str(buf, " | your-program\n\n");
        assert(buf@ =~= start + fifo_notes(all.take(i + 1), mode@));
    }
    assert(all.take(fifos@.len() as int) =~= all);
}

fn push_datagram_notes(buf: &mut Vec<char>, dgrams: &Vec<String>)
    ensures
        final(buf)@ == old(buf)@ + datagram_notes(strings_view(dgrams@)),
{
    let ghost start = buf@;
    let ghost all = strings_view(dgrams@);
    for i in 0..dgrams.len()
        invariant
            all == strings_view(dgrams@),
            buf@ == start + datagram_notes(all.take(i as int)),
    {
        assert(all.take(i + 1).drop_last() =~= all.take(i as int));
        assert(all.take(i + 1).last() == dgrams@[i as int]@);
        let ld = chars_of(dgrams[i].as_str());
        push_str(buf, "# ListenDatagram=");
        push_chars(buf, &ld);
        if ld.len() > 0 && ld[0] == '/' {
            push_str(buf, ": s6-udpserver not yet supported\n");
        } else {
            push_str(buf, ": use s6-udpserver with -B flag\n");
        }
        assert(buf@ =~= start + datagram_notes(all.take(i + 1)));
    }
    assert(all.take(dgrams@.len() as int) =~= all);
}

fn push_server_line(buf: &mut Vec<char>, ls: &Vec<char>, handler: &Vec<char>)
    ensures
        final(buf)@ == old(buf)@ + server_line(ls@, handler@),
{
    match address_kind_of(ls) {
        ListenAddress::Tcp { host, port } => {
            push_str(buf, "s6-tcpserver -b 128 -B \"");
            push_string(buf, &host);
            push_str(buf, "\" ");
            push_string(buf, &port);
            push_str(buf, " ./");
            push_chars(buf, handler);
            push_str(buf, "\n");
        },
        _ => {
            push_str(buf, "s6-ipcserver -l0 -- ");
            push_chars(buf, ls);
            push_str(buf, " ./");
            push_chars(buf, handler);
            push_str(buf, "\n");
        },
    }
    assert(buf@ =~= old(buf)@ + server_line(ls@, handler@));
}

fn push_program(buf: &mut Vec<char>, s: &Socket)
    ensures
        final(buf)@ == old(buf)@ + s6_program(s@),
{
    if s.listen_stream.len() > 0 {
        push_str(buf, "#!/bin/execlineb -P\n\n");
        match &s.socket_user {
            Some(u) => {
                push_str(buf, "s6-setuidgid ");
                push_string(buf, u);
                push_str(buf, "\n");
            },
            None => {},
        }
        let handler = match &s.service {
            Some(h) => chars_of(h.as_str()),
            None => chars_of("your-service-program"),
        };
        let ls = chars_of(s.listen_stream[0].as_str());
        push_server_line(buf, &ls, &handler);
    }
    assert(buf@ =~= old(buf)@ + s6_program(s@));
}

/// Writes the s6 run script for `s`.
pub fn to_s6(s: &Socket) -> (out: String)
    ensures
        out@ == s6_script(s@),
{
    let mut buf: Vec<char> = Vec::new();
    push_header(&mut buf, s);
    let mode = match &s.socket_mode {
        Some(m) => chars_of(m.as_str()),
        None => chars_of("600"),
    };
    push_fifo_notes(&mut buf, &s.listen_fifo, &mode);
    push_datagram_notes(&mut buf, &s.listen_datagram);
    if s.listen_seq_packet.len() > 0 {
        push_str(&mut buf, "# ListenSequentialPacket: mapped as stream\n");
    }
    push_program(&mut buf, s);
    assert(buf@ =~= s6_text(s@));
    let n = buf.len();
    if n > 0 && buf[n - 1] == '\n' {
        buf.pop();
        assert(buf@ =~= s6_text(s@).drop_last());
    }
    string_of(&buf)
}

// ---------------------------------------------------------------------------
// Laws
// ---------------------------------------------------------------------------
/// The socket that entries describe listens on every `ListenStream=`,
/// `ListenDatagram=`, `ListenSequentialPacket=` and `ListenFIFO=` of the
/// `[Socket]` section, in order, and has the last description,
/// `SocketUser=`, `SocketGroup=`, `SocketMode=` and `Service=`.
pub proof fn lemma_socket_fields(es: Seq<EntryView>)
    ensures
        socket_from(es).listen_stream == values_of(es, "Socket"@, "ListenStream"@),
        socket_from(es).listen_datagram == values_of(es, "Socket"@, "ListenDatagram"@),
        socket_from(es).listen_seq_packet == values_of(es, "Socket"@, "ListenSequentialPacket"@),
        socket_from(es).listen_fifo == values_of(es, "Socket"@, "ListenFIFO"@),
        socket_from(es).description == last_value_of(es, "Unit"@, "Description"@),
        socket_from(es).socket_user == last_value_of(es, "Socket"@, "SocketUser"@),
        socket_from(es).socket_group == last_value_of(es, "Socket"@, "SocketGroup"@),
        socket_from(es).socket_mode == last_value_of(es, "Socket"@, "SocketMode"@),
        socket_from(es).service == last_value_of(es, "Socket"@, "Service"@),
    decreases es.len(),
{
    reveal_strlit("Unit");
    reveal_strlit("Socket");
    reveal_strlit("ListenStream");
    reveal_strlit("ListenDatagram");
    reveal_strlit("ListenSequentialPacket");
    reveal_strlit("ListenFIFO");
    reveal_strlit("SocketUser");
    reveal_strlit("SocketGroup");
    reveal_strlit("SocketMode");
    reveal_strlit("Service");
    assert("Unit"@.len() == 4 && "Socket"@.len() == 6 && "ListenStream"@.len() == 12);
    assert("ListenDatagram"@.len() == 14 && "ListenSequentialPacket"@.len() == 22);
    assert("ListenFIFO"@.len() == 10 && "SocketUser"@.len() == 10 && "SocketGroup"@.len() == 11);
    assert("SocketMode"@.len() == 10 && "Service"@.len() == 7);
    reveal_strlit("Description");
    assert("Description"@.len() == 11);
    assert("ListenFIFO"@ != "SocketUser"@) by {
        assert("ListenFIFO"@[0] == 'L' && "SocketUser"@[0] == 'S');
    }
    assert("ListenFIFO"@ != "SocketMode"@) by {
        assert("ListenFIFO"@[0] == 'L' && "SocketMode"@[0] == 'S');
    }
    assert("SocketUser"@ != "SocketMode"@) by {
        assert("SocketUser"@[6] == 'U' && "SocketMode"@[6] == 'M');
    }
    if es.len() > 0 {
        let p = es.drop_last();
        lemma_socket_fields(p);
        assert(socket_from(es) == socket_apply(socket_from(p), es.last()));
    }
}

proof fn lemma_last_of_concat(x: Seq<char>, y: Seq<char>)
    ensures
        y.len() > 0 ==> (x + y).len() > 0 && (x + y).last() == y.last(),
        y.len() == 0 ==> x + y == x,
{
    if y.len() == 0 {
        assert(x + y =~= x);
    }
}

proof fn lemma_ends_with_newline(lit: Seq<char>, x: Seq<char>)
    requires
        lit.len() > 0,
        lit.last() == '\n',
    ensures
        (x + lit).len() > 0 && (x + lit).last() == '\n',
{
    lemma_last_of_concat(x, lit);
}

proof fn lemma_header_ends(s: SocketView)
    ensures
        s6_header(s).len() > 0 && s6_header(s).last() == '\n',
{
    reveal_strlit("# chmod +x run\n\n");
    let a = s6_header(s);
    let lit = "# chmod +x run\n\n"@;
    assert(a == a.take(a.len() - lit.len()) + lit) by {
        assert(a.take(a.len() - lit.len()) + lit =~= a);
    }
    lemma_ends_with_newline(lit, a.take(a.len() - lit.len()));
}

proof fn lemma_fifo_notes_end(fifos: Seq<Seq<char>>, mode: Seq<char>)
    requires
        fifos.len() > 0,
    ensures
        fifo_notes(fifos, mode).len() > 0 && fifo_notes(fifos, mode).last() == '\n',
{
    reveal_strlit(" | your-program\n\n");
    let b = fifo_notes(fifos, mode);
    let lit = " | your-program\n\n"@;
    assert(b == b.take(b.len() - lit.len()) + lit) by {
        assert(b.take(b.len() - lit.len()) + lit =~= b);
    }
    lemma_ends_with_newline(lit, b.take(b.len() - lit.len()));
}

proof fn lemma_datagram_notes_end(dgrams: Seq<Seq<char>>)
    requires
        dgrams.len() > 0,
    ensures
        datagram_notes(dgrams).len() > 0 && datagram_notes(dgrams).last() == '\n',
{
    reveal_strlit(": use s6-udpserver with -B flag\n");
    reveal_strlit(": s6-udpserver not yet supported\n");
    let ld = dgrams.last();
    let p = datagram_notes(dgrams.drop_last());
    let lit = if ld.len() > 0 && ld[0] == '/' {
        ": s6-udpserver not yet supported\n"@
    } else {
        ": use s6-udpserver with -B flag\n"@
    };
    assert(datagram_notes(dgrams) == p + ("# ListenDatagram="@ + ld + lit));
    lemma_ends_with_newline(lit, "# ListenDatagram="@ + ld);
    lemma_last_of_concat(p, "# ListenDatagram="@ + ld + lit);
}

proof fn lemma_program_ends(s: SocketView)
    requires
        s.listen_stream.len() > 0,
    ensures
        s6_program(s).len() > 0 && s6_program(s).last() == '\n',
{
    reveal_strlit("\n");
    let handler = match s.service {
        Some(h) => h,
        None => "your-service-program"@,
    };
    let ls = s.listen_stream[0];
    let line = server_line(ls, handler);
    match address_kind(ls) {
        AddressKind::Tcp(host, port) => {
            lemma_ends_with_newline(
                "\n"@,
                "s6-tcpserver -b 128 -B \""@ + host + "\" "@ + port + " ./"@ + handler,
            );
        },
        _ => {
            lemma_ends_with_newline("\n"@, "s6-ipcserver -l0 -- "@ + ls + " ./"@ + handler);
        },
    }
    assert(line.len() > 0 && line.last() == '\n');
    let user = match s.socket_user {
        Some(u) => "s6-setuidgid "@ + u + "\n"@,
        None => seq![],
    };
    lemma_last_of_concat("#!/bin/execlineb -P\n\n"@ + user, line);
}

/// The run script is the text that the notes and the program make, without
/// its final newline: that text always ends with one.
pub proof fn lemma_s6_drops_one_newline(s: SocketView)
    ensures
        s6_script(s) + seq!['\n'] == s6_text(s),
{
    reveal_strlit("# ListenSequentialPacket: mapped as stream\n");
    let mode = match s.socket_mode {
        Some(m) => m,
        None => "600"@,
    };
    let a = s6_header(s);
    let b = fifo_notes(s.listen_fifo, mode);
    let c = datagram_notes(s.listen_datagram);
    let d = if s.listen_seq_packet.len() > 0 {
        "# ListenSequentialPacket: mapped as stream\n"@
    } else {
        seq![]
    };
    let e = s6_program(s);
    lemma_header_ends(s);
    if s.listen_fifo.len() > 0 {
        lemma_fifo_notes_end(s.listen_fifo, mode);
    }
    if s.listen_datagram.len() > 0 {
        lemma_datagram_notes_end(s.listen_datagram);
    } else {
        assert(c.len() == 0);
    }
    if s.listen_seq_packet.len() > 0 {
        assert(d.last() == '\n');
    }
    if s.listen_stream.len() > 0 {
        lemma_program_ends(s);
    }
    let t = a + b + c + d + e;
    assert(t == s6_text(s));
    lemma_last_of_concat(a, b);
    lemma_last_of_concat(a + b, c);
    lemma_last_of_concat(a + b + c, d);
    lemma_last_of_concat(a + b + c + d, e);
    assert(t.len() > 0 && t.last() == '\n');
    assert(t.drop_last() + seq!['\n'] =~= t);
}

// ---------------------------------------------------------------------------
// The lines of the run script
// ---------------------------------------------------------------------------
/// The lines of the opening comments.
pub open spec fn s6_header_lines(s: SocketView) -> Seq<Seq<char>> {
    let description = match s.description {
        Some(d) => seq!["# "@ + d],
        None => seq![],
    };
    let activates = match s.service {
        Some(svc) => seq!["# Activates: "@ + svc],
        None => seq![],
    };
    description + activates + seq![
        "# s6 service directory — run script"@,
        "# Place this file at: /etc/s6/servicedir/<name>/run"@,
        "# chmod +x run"@,
        Seq::<char>::empty(),
    ]
}

/// The lines of the comment on the FIFOs `fifos`.
pub open spec fn fifo_lines(fifos: Seq<Seq<char>>, mode: Seq<char>) -> Seq<Seq<char>>
    decreases fifos.len(),
{
    if fifos.len() == 0 {
        seq![]
    } else {
        let lf = fifos.last();
        fifo_lines(fifos.drop_last(), mode) + seq![
            "# ListenFIFO="@ + lf + ": use a separate service with:"@,
            "#   mkfifo -m "@ + mode + " "@ + lf,
            "#   cat "@ + lf + " | your-program"@,
            Seq::<char>::empty(),
        ]
    }
}

/// The comment line on the datagram socket `ld`.
pub open spec fn datagram_line(ld: Seq<char>) -> Seq<char> {
    if ld.len() > 0 && ld[0] == '/' {
        "# ListenDatagram="@ + ld + ": s6-udpserver not yet supported"@
    } else {
        "# ListenDatagram="@ + ld + ": use s6-udpserver with -B flag"@
    }
}

/// The comment lines on the datagram sockets `dgrams`, one each.
pub open spec fn datagram_lines(dgrams: Seq<Seq<char>>) -> Seq<Seq<char>>
    decreases dgrams.len(),
{
    if dgrams.len() == 0 {
        seq![]
    } else {
        datagram_lines(dgrams.drop_last()).push(datagram_line(dgrams.last()))
    }
}

/// The server line for the stream address `ls`, without its line ending.
pub open spec fn server_text(ls: Seq<char>, handler: Seq<char>) -> Seq<char> {
    match address_kind(ls) {
        AddressKind::Tcp(host, port) => "s6-tcpserver -b 128 -B \""@ + host + "\" "@ + port
            + " ./"@ + handler,
        _ => "s6-ipcserver -l0 -- "@ + ls + " ./"@ + handler,
    }
}

/// The program that connections are handed to.
pub open spec fn s6_handler(s: SocketView) -> Seq<char> {
    match s.service {
        Some(h) => h,
        None => "your-service-program"@,
    }
}

/// The lines of the execline program: none without a stream address;
/// else the interpreter line, a blank line, the user switch when a user is
/// set, and the server line for the first stream address.
pub open spec fn s6_program_lines(s: SocketView) -> Seq<Seq<char>> {
    if s.listen_stream.len() == 0 {
        seq![]
    } else {
        let user = match s.socket_user {
            Some(u) => seq!["s6-setuidgid "@ + u],
            None => seq![],
        };
        seq!["#!/bin/execlineb -P"@, Seq::<char>::empty()] + user + seq![
            server_text(s.listen_stream[0], s6_handler(s)),
        ]
    }
}

/// The comment lines of the run script: what comes before the program.
pub open spec fn s6_note_lines(s: SocketView) -> Seq<Seq<char>> {
    let mode = match s.socket_mode {
        Some(m) => m,
        None => "600"@,
    };
    let packets = if s.listen_seq_packet.len() > 0 {
        seq!["# ListenSequentialPacket: mapped as stream"@]
    } else {
        seq![]
    };
    s6_header_lines(s) + fifo_lines(s.listen_fifo, mode) + datagram_lines(s.listen_datagram)
        + packets
}

/// The lines of the run script, the last one included.
pub open spec fn s6_lines(s: SocketView) -> Seq<Seq<char>> {
    s6_note_lines(s) + s6_program_lines(s)
}

proof fn lemma_header_text(s: SocketView)
    ensures
        terminated(s6_header_lines(s)) == s6_header(s),
{
    reveal_strlit("# s6 service directory — run script\n");
    reveal_strlit("# s6 service directory — run script");
    reveal_strlit("# Place this file at: /etc/s6/servicedir/<name>/run\n");
    reveal_strlit("# Place this file at: /etc/s6/servicedir/<name>/run");
    reveal_strlit("# chmod +x run\n\n");
    reveal_strlit("# chmod +x run");
    reveal_strlit("\n");
    let description = match s.description {
        Some(d) => seq!["# "@ + d],
        None => seq![],
    };
    let activates = match s.service {
        Some(svc) => seq!["# Activates: "@ + svc],
        None => seq![],
    };
    let fixed = seq![
        "# s6 service directory — run script"@,
        "# Place this file at: /etc/s6/servicedir/<name>/run"@,
        "# chmod +x run"@,
        Seq::<char>::empty(),
    ];
    lemma_terminated_concat(description + activates, fixed);
    lemma_terminated_concat(description, activates);
    match s.description {
        Some(d) => lemma_terminated_one("# "@ + d),
        None => {},
    }
    match s.service {
        Some(svc) => lemma_terminated_one("# Activates: "@ + svc),
        None => {},
    }
    lemma_terminated_concat(seq![fixed[0], fixed[1]], seq![fixed[2], fixed[3]]);
    lemma_terminated_concat(seq![fixed[0]], seq![fixed[1]]);
    lemma_terminated_concat(seq![fixed[2]], seq![fixed[3]]);
    lemma_terminated_one(fixed[0]);
    lemma_terminated_one(fixed[1]);
    lemma_terminated_one(fixed[2]);
    lemma_terminated_one(fixed[3]);
    assert(seq![fixed[0], fixed[1]] + seq![fixed[2], fixed[3]] =~= fixed);
    assert(seq![fixed[0]] + seq![fixed[1]] =~= seq![fixed[0], fixed[1]]);
    assert(seq![fixed[2]] + seq![fixed[3]] =~= seq![fixed[2], fixed[3]]);
    assert(terminated(fixed) =~= "# s6 service directory — run script\n"@
        + "# Place this file at: /etc/s6/servicedir/<name>/run\n"@ + "# chmod +x run\n\n"@);
    assert(terminated(description) == match s.description {
        Some(d) => "# "@ + d + "\n"@,
        None => Seq::<char>::empty(),
    });
    assert(terminated(activates) == match s.service {
        Some(svc) => "# Activates: "@ + svc + "\n"@,
        None => Seq::<char>::empty(),
    });
}

proof fn lemma_fifo_literals()
    ensures
        ": use a separate service with:\n#   mkfifo -m "@ == ": use a separate service with:"@
            + seq!['\n'] + "#   mkfifo -m "@,
        "\n#   cat "@ == seq!['\n'] + "#   cat "@,
        " | your-program\n\n"@ == " | your-program"@ + seq!['\n', '\n'],
{
    reveal_strlit(": use a separate service with:\n#   mkfifo -m ");
    reveal_strlit(": use a separate service with:");
    reveal_strlit("#   mkfifo -m ");
    reveal_strlit("\n#   cat ");
    reveal_strlit("#   cat ");
    reveal_strlit(" | your-program\n\n");
    reveal_strlit(" | your-program");
    assert(": use a separate service with:\n#   mkfifo -m "@ =~= ": use a separate service with:"@
        + seq!['\n'] + "#   mkfifo -m "@);
    assert("\n#   cat "@ =~= seq!['\n'] + "#   cat "@);
    assert(" | your-program\n\n"@ =~= " | your-program"@ + seq!['\n', '\n']);
}

proof fn lemma_four_lines(b: Seq<Seq<char>>)
    requires
        b.len() == 4,
    ensures
        terminated(b) == b[0] + seq!['\n'] + b[1] + seq!['\n'] + b[2] + seq!['\n'] + b[3] + seq![
            '\n',
        ],
{
    lemma_terminated_concat(seq![b[0], b[1]], seq![b[2], b[3]]);
    lemma_terminated_concat(seq![b[0]], seq![b[1]]);
    lemma_terminated_concat(seq![b[2]], seq![b[3]]);
    lemma_terminated_one(b[0]);
    lemma_terminated_one(b[1]);
    lemma_terminated_one(b[2]);
    lemma_terminated_one(b[3]);
    assert(seq![b[0], b[1]] + seq![b[2], b[3]] =~= b);
    assert(seq![b[0]] + seq![b[1]] =~= seq![b[0], b[1]]);
    assert(seq![b[2]] + seq![b[3]] =~= seq![b[2], b[3]]);
    assert(b[0] + seq!['\n'] + (b[1] + seq!['\n']) + (b[2] + seq!['\n'] + (b[3] + seq!['\n']))
        =~= b[0] + seq!['\n'] + b[1] + seq!['\n'] + b[2] + seq!['\n'] + b[3] + seq!['\n']);
}

proof fn lemma_fifo_text(fifos: Seq<Seq<char>>, mode: Seq<char>)
    ensures
        terminated(fifo_lines(fifos, mode)) == fifo_notes(fifos, mode),
    decreases fifos.len(),
{
    if fifos.len() > 0 {
        let lf = fifos.last();
        lemma_fifo_text(fifos.drop_last(), mode);
        let block = seq![
            "# ListenFIFO="@ + lf + ": use a separate service with:"@,
            "#   mkfifo -m "@ + mode + " "@ + lf,
            "#   cat "@ + lf + " | your-program"@,
            Seq::<char>::empty(),
        ];
        lemma_terminated_concat(fifo_lines(fifos.drop_last(), mode), block);
        lemma_four_lines(block);
        lemma_fifo_literals();
        assert(terminated(block) =~= "# ListenFIFO="@ + lf
            + ": use a separate service with:\n#   mkfifo -m "@ + mode + " "@ + lf + "\n#   cat "@
            + lf + " | your-program\n\n"@);
        assert(fifo_notes(fifos, mode) =~= fifo_notes(fifos.drop_last(), mode) + ("# ListenFIFO="@
            + lf + ": use a separate service with:\n#   mkfifo -m "@ + mode + " "@ + lf
            + "\n#   cat "@ + lf + " | your-program\n\n"@));
    }
}

proof fn lemma_datagram_text(dgrams: Seq<Seq<char>>)
    ensures
        terminated(datagram_lines(dgrams)) == datagram_notes(dgrams),
    decreases dgrams.len(),
{
    if dgrams.len() > 0 {
        reveal_strlit(": s6-udpserver not yet supported\n");
        reveal_strlit(": s6-udpserver not yet supported");
        reveal_strlit(": use s6-udpserver with -B flag\n");
        reveal_strlit(": use s6-udpserver with -B flag");
        lemma_datagram_text(dgrams.drop_last());
        let ld = dgrams.last();
        let l = datagram_lines(dgrams);
        assert(l.drop_last() =~= datagram_lines(dgrams.drop_last()));
        assert(": s6-udpserver not yet supported\n"@ =~= ": s6-udpserver not yet supported"@
            + seq!['\n']);
        assert(": use s6-udpserver with -B flag\n"@ =~= ": use s6-udpserver with -B flag"@
            + seq!['\n']);
        assert(terminated(l) =~= datagram_notes(dgrams));
    }
}

proof fn lemma_program_text(s: SocketView)
    ensures
        terminated(s6_program_lines(s)) == s6_program(s),
{
    if s.listen_stream.len() > 0 {
        reveal_strlit("#!/bin/execlineb -P\n\n");
        reveal_strlit("#!/bin/execlineb -P");
        reveal_strlit("\n");
        let user = match s.socket_user {
            Some(u) => seq!["s6-setuidgid "@ + u],
            None => seq![],
        };
        let head = seq!["#!/bin/execlineb -P"@, Seq::<char>::empty()];
        let last = seq![server_text(s.listen_stream[0], s6_handler(s))];
        lemma_terminated_concat(head + user, last);
        lemma_terminated_concat(head, user);
        lemma_terminated_concat(seq![head[0]], seq![head[1]]);
        assert(seq![head[0]] + seq![head[1]] =~= head);
        lemma_terminated_one(head[0]);
        lemma_terminated_one(head[1]);
        lemma_terminated_one(last[0]);
        match s.socket_user {
            Some(u) => lemma_terminated_one("s6-setuidgid "@ + u),
            None => {},
        }
        assert(terminated(head) =~= "#!/bin/execlineb -P\n\n"@);
        assert(terminated(last) =~= server_line(s.listen_stream[0], s6_handler(s)));
    }
}

/// The text of the lines of the run script, each ended, is the run script
/// with its final newline.
pub proof fn lemma_s6_text_lines(s: SocketView)
    ensures
        terminated(s6_lines(s)) == s6_text(s),
{
    let mode = match s.socket_mode {
        Some(m) => m,
        None => "600"@,
    };
    let packets = if s.listen_seq_packet.len() > 0 {
        seq!["# ListenSequentialPacket: mapped as stream"@]
    } else {
        seq![]
    };
    reveal_strlit("# ListenSequentialPacket: mapped as stream\n");
    reveal_strlit("# ListenSequentialPacket: mapped as stream");
    lemma_header_text(s);
    lemma_fifo_text(s.listen_fifo, mode);
    lemma_datagram_text(s.listen_datagram);
    lemma_program_text(s);
    let a = s6_header_lines(s);
    let b = fifo_lines(s.listen_fifo, mode);
    let c = datagram_lines(s.listen_datagram);
    lemma_terminated_concat(a + b + c + packets, s6_program_lines(s));
    lemma_terminated_concat(a + b + c, packets);
    lemma_terminated_concat(a + b, c);
    lemma_terminated_concat(a, b);
    if s.listen_seq_packet.len() > 0 {
        lemma_terminated_one("# ListenSequentialPacket: mapped as stream"@);
        assert(terminated(packets) =~= "# ListenSequentialPacket: mapped as stream\n"@);
    }
}

/// Whether the values of `s` that the run script writes can stand in its
/// lines: none holds a line break, and those that end a line do not end
/// with `'\r'`.
pub open spec fn is_plain_socket(s: SocketView) -> bool {
    &&& (s.description matches Some(d) ==> is_plain_line(d))
    &&& (s.service matches Some(h) ==> is_plain_line(h))
    &&& (s.socket_user matches Some(u) ==> is_plain_line(u))
    &&& (s.socket_mode matches Some(m) ==> no_newline(m))
    &&& forall|i: int| 0 <= i < s.listen_fifo.len() ==> is_plain_line(#[trigger] s.listen_fifo[i])
    &&& forall|i: int|
        0 <= i < s.listen_datagram.len() ==> no_newline(#[trigger] s.listen_datagram[i])
    &&& (s.listen_stream.len() > 0 ==> no_newline(s.listen_stream[0]))
}

/// Whether `l` is blank or a comment that starts with `# `.
pub open spec fn is_note(l: Seq<char>) -> bool {
    l.len() == 0 || (l.len() >= 2 && l[0] == '#' && l[1] == ' ')
}

/// A line that starts with the literal `lit` and ends with `v`.
proof fn lemma_line_with(lit: Seq<char>, v: Seq<char>)
    requires
        no_newline(lit),
        is_plain_line(v),
        lit.len() > 0,
        v.len() == 0 ==> lit.last() != '\r',
    ensures
        is_plain_line(lit + v),
        (lit + v)[0] == lit[0],
        lit.len() >= 2 ==> (lit + v)[1] == lit[1],
{
    lemma_concat_no_newline(lit, v);
}

proof fn lemma_subrange_no_newline(s: Seq<char>, i: int, j: int)
    requires
        no_newline(s),
        0 <= i <= j <= s.len(),
    ensures
        no_newline(s.subrange(i, j)),
{
    assert forall|k: int| 0 <= k < s.subrange(i, j).len() implies s.subrange(i, j)[k] != '\n' by {
        assert(s.subrange(i, j)[k] == s[i + k]);
    }
}

proof fn lemma_header_lines_plain(s: SocketView)
    requires
        is_plain_socket(s),
    ensures
        forall|i: int|
            0 <= i < s6_header_lines(s).len() ==> is_plain_line(#[trigger] s6_header_lines(s)[i])
                && is_note(s6_header_lines(s)[i]),
{
    reveal_strlit("# ");
    reveal_strlit("# Activates: ");
    reveal_strlit("# s6 service directory — run script");
    reveal_strlit("# Place this file at: /etc/s6/servicedir/<name>/run");
    reveal_strlit("# chmod +x run");
    let description = match s.description {
        Some(d) => seq!["# "@ + d],
        None => seq![],
    };
    let activates = match s.service {
        Some(svc) => seq!["# Activates: "@ + svc],
        None => seq![],
    };
    match s.description {
        Some(d) => {
            assert("# "@.last() == ' ');
            lemma_line_with("# "@, d);
        },
        None => {},
    }
    match s.service {
        Some(h) => {
            assert("# Activates: "@.last() == ' ');
            lemma_line_with("# Activates: "@, h);
        },
        None => {},
    }
    let fixed = seq![
        "# s6 service directory — run script"@,
        "# Place this file at: /etc/s6/servicedir/<name>/run"@,
        "# chmod +x run"@,
        Seq::<char>::empty(),
    ];
    assert(is_plain_line(fixed[0]) && is_note(fixed[0]));
    assert(is_plain_line(fixed[1]) && is_note(fixed[1]));
    assert(is_plain_line(fixed[2]) && is_note(fixed[2]));
    let all = description + activates + fixed;
    assert forall|i: int| 0 <= i < all.len() implies is_plain_line(#[trigger] all[i]) && is_note(
        all[i],
    ) by {
        if i < description.len() {
            assert(all[i] == description[i]);
        } else if i < description.len() + activates.len() {
            assert(all[i] == activates[i - description.len()]);
        } else {
            assert(all[i] == fixed[i - description.len() - activates.len()]);
        }
    }
}

proof fn lemma_fifo_lines_plain(fifos: Seq<Seq<char>>, mode: Seq<char>)
    requires
        no_newline(mode),
        forall|i: int| 0 <= i < fifos.len() ==> is_plain_line(#[trigger] fifos[i]),
    ensures
        forall|i: int|
            0 <= i < fifo_lines(fifos, mode).len() ==> is_plain_line(
                #[trigger] fifo_lines(fifos, mode)[i],
            ) && is_note(fifo_lines(fifos, mode)[i]),
    decreases fifos.len(),
{
    if fifos.len() > 0 {
        let p = fifos.drop_last();
        assert forall|i: int| 0 <= i < p.len() implies is_plain_line(#[trigger] p[i]) by {
            assert(p[i] == fifos[i]);
        }
        lemma_fifo_lines_plain(p, mode);
        let lf = fifos.last();
        assert(is_plain_line(fifos[fifos.len() - 1]));
        reveal_strlit("# ListenFIFO=");
        reveal_strlit(": use a separate service with:");
        reveal_strlit("#   mkfifo -m ");
        reveal_strlit(" ");
        reveal_strlit("#   cat ");
        reveal_strlit(" | your-program");
        let l0 = "# ListenFIFO="@ + lf + ": use a separate service with:"@;
        let l1 = "#   mkfifo -m "@ + mode + " "@ + lf;
        let l2 = "#   cat "@ + lf + " | your-program"@;
        lemma_concat_no_newline("# ListenFIFO="@, lf);
        lemma_concat_no_newline("# ListenFIFO="@ + lf, ": use a separate service with:"@);
        assert(is_plain_line(l0) && is_note(l0));
        lemma_concat_no_newline("#   mkfifo -m "@, mode);
        lemma_concat_no_newline("#   mkfifo -m "@ + mode, " "@);
        lemma_line_with("#   mkfifo -m "@ + mode + " "@, lf);
        assert(is_plain_line(l1) && is_note(l1));
        lemma_concat_no_newline("#   cat "@, lf);
        lemma_concat_no_newline("#   cat "@ + lf, " | your-program"@);
        assert(is_plain_line(l2) && is_note(l2));
        let block = seq![l0, l1, l2, Seq::<char>::empty()];
        let all = fifo_lines(p, mode) + block;
        assert forall|i: int| 0 <= i < all.len() implies is_plain_line(#[trigger] all[i])
            && is_note(all[i]) by {
            if i < fifo_lines(p, mode).len() {
                assert(all[i] == fifo_lines(p, mode)[i]);
            } else {
                assert(all[i] == block[i - fifo_lines(p, mode).len()]);
            }
        }
    }
}

proof fn lemma_datagram_lines_plain(dgrams: Seq<Seq<char>>)
    requires
        forall|i: int| 0 <= i < dgrams.len() ==> no_newline(#[trigger] dgrams[i]),
    ensures
        forall|i: int|
            0 <= i < datagram_lines(dgrams).len() ==> is_plain_line(
                #[trigger] datagram_lines(dgrams)[i],
            ) && is_note(datagram_lines(dgrams)[i]),
    decreases dgrams.len(),
{
    if dgrams.len() > 0 {
        let p = dgrams.drop_last();
        assert forall|i: int| 0 <= i < p.len() implies no_newline(#[trigger] p[i]) by {
            assert(p[i] == dgrams[i]);
        }
        lemma_datagram_lines_plain(p);
        let ld = dgrams.last();
        assert(no_newline(dgrams[dgrams.len() - 1]));
        reveal_strlit("# ListenDatagram=");
        reveal_strlit(": s6-udpserver not yet supported");
        reveal_strlit(": use s6-udpserver with -B flag");
        lemma_concat_no_newline("# ListenDatagram="@, ld);
        lemma_concat_no_newline("# ListenDatagram="@ + ld, ": s6-udpserver not yet supported"@);
        lemma_concat_no_newline("# ListenDatagram="@ + ld, ": use s6-udpserver with -B flag"@);
        let l = datagram_line(ld);
        assert(is_plain_line(l) && is_note(l));
        let all = datagram_lines(dgrams);
        assert forall|i: int| 0 <= i < all.len() implies is_plain_line(#[trigger] all[i])
            && is_note(all[i]) by {
            if i < all.len() - 1 {
                assert(all[i] == datagram_lines(p)[i]);
            }
        }
    }
}

/// The comment lines of a run script are each blank or a comment that
/// starts with `# `, and can stand as lines.
pub proof fn lemma_note_lines(s: SocketView)
    requires
        is_plain_socket(s),
    ensures
        forall|i: int|
            0 <= i < s6_note_lines(s).len() ==> is_plain_line(#[trigger] s6_note_lines(s)[i])
                && is_note(s6_note_lines(s)[i]),
{
    let mode = match s.socket_mode {
        Some(m) => m,
        None => "600"@,
    };
    reveal_strlit("600");
    reveal_strlit("# ListenSequentialPacket: mapped as stream");
    assert(no_newline(mode));
    lemma_header_lines_plain(s);
    lemma_fifo_lines_plain(s.listen_fifo, mode);
    lemma_datagram_lines_plain(s.listen_datagram);
    let packets = if s.listen_seq_packet.len() > 0 {
        seq!["# ListenSequentialPacket: mapped as stream"@]
    } else {
        seq![]
    };
    assert(forall|i: int| 0 <= i < packets.len() ==> is_plain_line(#[trigger] packets[i]) && is_note(packets[i]));
    let a = s6_header_lines(s);
    let b = fifo_lines(s.listen_fifo, mode);
    let c = datagram_lines(s.listen_datagram);
    let all = a + b + c + packets;
    assert(all == s6_note_lines(s));
    assert forall|i: int| 0 <= i < all.len() implies is_plain_line(#[trigger] all[i]) && is_note(
        all[i],
    ) by {
        if i < a.len() {
            assert(all[i] == a[i]);
        } else if i < a.len() + b.len() {
            assert(all[i] == b[i - a.len()]);
        } else if i < a.len() + b.len() + c.len() {
            assert(all[i] == c[i - a.len() - b.len()]);
        } else {
            assert(all[i] == packets[i - a.len() - b.len() - c.len()]);
        }
    }
}

proof fn lemma_server_text_plain(ls: Seq<char>, handler: Seq<char>)
    requires
        no_newline(ls),
        is_plain_line(handler),
    ensures
        is_plain_line(server_text(ls, handler)),
        server_text(ls, handler).len() > 0,
        server_text(ls, handler)[0] == 's',
{
    reveal_strlit("s6-tcpserver -b 128 -B \"");
    reveal_strlit("\" ");
    reveal_strlit(" ./");
    reveal_strlit("s6-ipcserver -l0 -- ");
    match address_kind(ls) {
        AddressKind::Tcp(host, port) => {
            crate::text::lemma_last_index_facts(ls, ':');
            let i = last_index(ls, ':').unwrap();
            assert(host == ls.subrange(0, i));
            assert(port == ls.subrange(i + 1, ls.len() as int));
            lemma_subrange_no_newline(ls, 0, i);
            lemma_subrange_no_newline(ls, i + 1, ls.len() as int);
            let a = "s6-tcpserver -b 128 -B \""@;
            lemma_concat_no_newline(a, host);
            lemma_concat_no_newline(a + host, "\" "@);
            lemma_concat_no_newline(a + host + "\" "@, port);
            lemma_concat_no_newline(a + host + "\" "@ + port, " ./"@);
            lemma_line_with(a + host + "\" "@ + port + " ./"@, handler);
            assert((a + host + "\" "@ + port + " ./"@)[0] == 's');
        },
        _ => {
            let a = "s6-ipcserver -l0 -- "@;
            lemma_concat_no_newline(a, ls);
            lemma_concat_no_newline(a + ls, " ./"@);
            lemma_line_with(a + ls + " ./"@, handler);
            assert((a + ls + " ./"@)[0] == 's');
        },
    }
}

proof fn lemma_handler_plain(s: SocketView)
    requires
        is_plain_socket(s),
    ensures
        is_plain_line(s6_handler(s)),
{
    match s.service {
        Some(h) => {},
        None => {
            reveal_strlit("your-service-program");
            let d = "your-service-program"@;
            assert forall|k: int| 0 <= k < d.len() implies d[k] != '\n' by {}
            assert(d.last() == 'm');
        },
    }
}

proof fn lemma_program_lines_plain(s: SocketView)
    requires
        is_plain_socket(s),
    ensures
        forall|i: int|
            0 <= i < s6_program_lines(s).len() ==> is_plain_line(
                #[trigger] s6_program_lines(s)[i],
            ),
        s.listen_stream.len() > 0 ==> s6_program_lines(s).last().len() > 0,
{
    if s.listen_stream.len() > 0 {
        reveal_strlit("#!/bin/execlineb -P");
        reveal_strlit("s6-setuidgid ");
        let h = s6_handler(s);
        lemma_handler_plain(s);
        lemma_server_text_plain(s.listen_stream[0], h);
        let user = match s.socket_user {
            Some(u) => seq!["s6-setuidgid "@ + u],
            None => seq![],
        };
        match s.socket_user {
            Some(u) => {
                assert("s6-setuidgid "@.last() == ' ');
                lemma_line_with("s6-setuidgid "@, u);
            },
            None => {},
        }
        let head = seq!["#!/bin/execlineb -P"@, Seq::<char>::empty()];
        assert(is_plain_line(head[0]));
        let last = seq![server_text(s.listen_stream[0], h)];
        let all = head + user + last;
        assert(all == s6_program_lines(s));
        assert forall|i: int| 0 <= i < all.len() implies is_plain_line(#[trigger] all[i]) by {
            if i < 2 {
                assert(all[i] == head[i]);
            } else if i < 2 + user.len() {
                assert(all[i] == user[i - 2]);
            } else {
                assert(all[i] == last[0]);
            }
        }
    }
}

/// The lines of the run script, as `str::lines` reads them, are those of
/// [`s6_lines`] (a last blank one aside, which the dropped final newline
/// takes away), when the values of `s` hold no line break and those that
/// end a line do not end with `'\r'`.
pub proof fn lemma_s6_lines(s: SocketView)
    requires
        is_plain_socket(s),
    ensures
        lines(s6_script(s)) == if s6_lines(s).last().len() == 0 {
            s6_lines(s).drop_last()
        } else {
            s6_lines(s)
        },
{
    lemma_note_lines(s);
    lemma_program_lines_plain(s);
    let a = s6_note_lines(s);
    let b = s6_program_lines(s);
    let ls = s6_lines(s);
    assert forall|i: int| 0 <= i < ls.len() implies is_plain_line(#[trigger] ls[i]) by {
        if i < a.len() {
            assert(ls[i] == a[i]);
        } else {
            assert(ls[i] == b[i - a.len()]);
        }
    }
    assert(s6_header_lines(s).len() >= 4);
    lemma_s6_text_lines(s);
    let t = terminated(ls);
    assert(t == terminated(ls.drop_last()) + ls.last() + seq!['\n']);
    assert(t.len() > 0 && t.last() == '\n');
    lemma_lines_of_unterminated(ls);
}

/// The program of the run script: with a stream address, the comment lines
/// are followed by the interpreter line `#!/bin/execlineb -P`, a blank
/// line, `s6-setuidgid u` when a socket user `u` is set, and last the
/// server line for the first stream address (later ones are not served);
/// the script then does not end with a newline. Without a stream address,
/// every line is blank or a `# ` comment, so there is neither interpreter
/// line nor server line.
#[verifier::rlimit(40)]
pub proof fn lemma_s6_program(s: SocketView)
    requires
        is_plain_socket(s),
    ensures
        !is_note("#!/bin/execlineb -P"@),
        forall|ls: Seq<char>, h: Seq<char>| !is_note(#[trigger] server_text(ls, h)),
        s.listen_stream.len() == 0 ==> forall|i: int|
            0 <= i < lines(s6_script(s)).len() ==> is_note(#[trigger] lines(s6_script(s))[i]),
        s.listen_stream.len() > 0 ==> {
            &&& lines(s6_script(s)) == s6_note_lines(s) + seq![
                "#!/bin/execlineb -P"@,
                Seq::<char>::empty(),
            ] + match s.socket_user {
                Some(u) => seq!["s6-setuidgid "@ + u],
                None => seq![],
            } + seq![server_text(s.listen_stream[0], s6_handler(s))]
            &&& lines(s6_script(s)).last() == server_text(s.listen_stream[0], s6_handler(s))
            &&& s6_script(s).len() > 0 && s6_script(s).last() != '\n'
        },
{
    reveal_strlit("#!/bin/execlineb -P");
    reveal_strlit("s6-tcpserver -b 128 -B \"");
    reveal_strlit("s6-ipcserver -l0 -- ");
    assert forall|ls: Seq<char>, h: Seq<char>| !is_note(#[trigger] server_text(ls, h)) by {
        match address_kind(ls) {
            AddressKind::Tcp(host, port) => {
                assert(server_text(ls, h)[0] == 's');
            },
            _ => {
                assert(server_text(ls, h)[0] == 's');
            },
        }
    }
    lemma_s6_lines(s);
    lemma_note_lines(s);
    lemma_program_lines_plain(s);
    let ls = s6_lines(s);
    if s.listen_stream.len() == 0 {
        assert(ls =~= s6_note_lines(s));
        let r = lines(s6_script(s));
        assert forall|i: int| 0 <= i < r.len() implies is_note(#[trigger] r[i]) by {
            assert(r[i] == ls[i]);
        }
    } else {
        let h = s6_handler(s);
        lemma_handler_plain(s);
        lemma_server_text_plain(s.listen_stream[0], h);
        let user = match s.socket_user {
            Some(u) => seq!["s6-setuidgid "@ + u],
            None => seq![],
        };
        assert(ls =~= s6_note_lines(s) + seq!["#!/bin/execlineb -P"@, Seq::<char>::empty()] + user
            + seq![server_text(s.listen_stream[0], h)]);
        assert(ls.last() == server_text(s.listen_stream[0], h));
        lemma_s6_text_lines(s);
        let t = terminated(ls);
        assert(t == terminated(ls.drop_last()) + ls.last() + seq!['\n']);
        assert(s6_script(s) =~= terminated(ls.drop_last()) + ls.last());
        let l = ls.last();
        assert(l.len() > 0 && l.last() != '\n');
        assert((terminated(ls.drop_last()) + l).last() == l.last());
    }
}

} // verus!
