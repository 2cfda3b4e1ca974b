//! Socket activation: the addresses to listen on, what kind each is, and
//! the names under which the listening sockets are handed to the service.
use vstd::prelude::*;

use crate::text::{
    chars_of, copy_range, decimal, find_last, join_with, last_index, push_chars, push_decimal,
    string_of, strings_view,
};

verus! {

/// The addresses that `socket-activate` listens on.
#[derive(Debug)]
pub struct SocketConfig {
    pub listen_stream: Vec<String>,
}

impl Default for SocketConfig {
    /// No address.
    fn default() -> (r: SocketConfig)
        ensures
            r.listen_stream@.len() == 0,
    {
        SocketConfig { listen_stream: Vec::new() }
    }
}

/// The configuration for the given `--listen-stream` addresses.
pub fn parse_config(listen_stream: &[String]) -> (cfg: SocketConfig)
    ensures
        strings_view(cfg.listen_stream@) == strings_view(listen_stream@),
{
    let mut v: Vec<String> = Vec::new();
    for i in 0..listen_stream.len()
        invariant
            strings_view(v@) == strings_view(listen_stream@).take(i as int),
    {
        let ghost before = v@;
        let s = listen_stream[i].clone();
        v.push(s);
        assert(strings_view(v@) =~= strings_view(before).push(s@));
        assert(strings_view(listen_stream@).take(i + 1) =~= strings_view(listen_stream@).take(
            i as int,
        ).push(listen_stream@[i as int]@));
    }
    assert(strings_view(listen_stream@).take(listen_stream@.len() as int) =~= strings_view(
        listen_stream@,
    ));
    SocketConfig { listen_stream: v }
}

/// What kind of address a `ListenStream=` value is.
pub enum AddressKind {
    /// A path (starting with `/` or `.`): a Unix socket.
    Unix,
    /// `host:port`, split at the last `:`: a TCP socket.
    Tcp(Seq<char>, Seq<char>),
    /// Neither.
    Unknown,
}

/// What kind of address `a` is.
pub open spec fn address_kind(a: Seq<char>) -> AddressKind {
    if a.len() > 0 && (a[0] == '/' || a[0] == '.') {
        AddressKind::Unix
    } else {
        match last_index(a, ':') {
            Some(i) => AddressKind::Tcp(a.take(i), a.skip(i + 1)),
            None => AddressKind::Unknown,
        }
    }
}

/// What kind of address a `ListenStream=` value is.
#[derive(Debug)]
pub enum ListenAddress {
    Unix,
    Tcp { host: String, port: String },
    Unknown,
}

impl View for ListenAddress {
    type V = AddressKind;

    open spec fn view(&self) -> AddressKind {
        match self {
            ListenAddress::Unix => AddressKind::Unix,
            ListenAddress::Tcp { host, port } => AddressKind::Tcp(host@, port@),
            ListenAddress::Unknown => AddressKind::Unknown,
        }
    }
}

/// What kind of address the characters `a` are.
pub fn address_kind_of(a: &Vec<char>) -> (r: ListenAddress)
    ensures
        r@ == address_kind(a@),
{
    if a.len() > 0 && (a[0] == '/' || a[0] == '.') {
        ListenAddress::Unix
    } else {
        match find_last(a, ':') {
            Some(i) => {
                let host = copy_range(a, 0, i);
                let port = copy_range(a, i + 1, a.len());
                assert(host@ =~= a@.take(i as int));
                assert(port@ =~= a@.skip(i + 1));
                ListenAddress::Tcp { host: string_of(&host), port: string_of(&port) }
            },
            None => ListenAddress::Unknown,
        }
    }
}

/// What kind of address `addr` is: a Unix socket path, a TCP `host:port`,
/// or neither.
pub fn listen_address(addr: &str) -> (r: ListenAddress)
    ensures
        r@ == address_kind(addr@),
{
    address_kind_of(&chars_of(addr))
}

/// The name of the socket at address `a`: what follows its last `/`.
pub open spec fn fd_name(a: Seq<char>) -> Seq<char> {
    match last_index(a, '/') {
        Some(i) => a.skip(i + 1),
        None => a,
    }
}

/// The value of `LISTEN_FDNAMES`: the names of the sockets, in order,
/// separated by `:`.
pub open spec fn fd_names_text(addrs: Seq<Seq<char>>) -> Seq<char> {
    join_with(addrs.map_values(|a: Seq<char>| fd_name(a)), seq![':'])
}

fn fd_name_of(a: &Vec<char>) -> (r: Vec<char>)
    ensures
        r@ == fd_name(a@),
{
    match find_last(a, '/') {
        Some(i) => {
            let n = a.len();
            let r = copy_range(a, i + 1, n);
            assert(r@ =~= a@.skip(i + 1));
            r
        },
        None => copy_range(a, 0, a.len()),
    }
}

/// The value of `LISTEN_FDNAMES` for `config`.
pub fn listen_fd_names(config: &SocketConfig) -> (r: String)
    ensures
        r@ == fd_names_text(strings_view(config.listen_stream@)),
{
    let ghost names = strings_view(config.listen_stream@).map_values(|a: Seq<char>| fd_name(a));
    let mut buf: Vec<char> = Vec::new();
    for i in 0..config.listen_stream.len()
        invariant
            names == strings_view(config.listen_stream@).map_values(|a: Seq<char>| fd_name(a)),
            buf@ == join_with(names.take(i as int), seq![':']),
    {
        let name = fd_name_of(&chars_of(config.listen_stream[i].as_str()));
        let ghost before = buf@;
        assert(names.take(i + 1).drop_last() =~= names.take(i as int));
        assert(names.take(i + 1).last() == name@);
        if i > 0 {
            buf.push(':');
        }
        push_chars(&mut buf, &name);
        assert(buf@ =~= join_with(names.take(i + 1), seq![':']));
    }
    assert(names.take(config.listen_stream@.len() as int) =~= names);
    string_of(&buf)
}

/// The value of `LISTEN_FDS` when `count` sockets are passed: their number,
/// in decimal.
pub fn listen_fds_value(count: usize) -> (r: String)
    ensures
        r@ == decimal(count as nat),
{
    let mut buf: Vec<char> = Vec::new();
    push_decimal(&mut buf, count as u64);
    string_of(&buf)
}

/// The descriptors that the `count` passed sockets are moved to, in order:
/// 3, 4, 5, and so on.
pub fn fd_targets(count: usize) -> (r: Vec<i32>)
    requires
        count <= 0x7fff_fffd,
    ensures
        r@.len() == count,
        forall|i: int| 0 <= i < count ==> r@[i] == 3 + i,
{
    let mut r: Vec<i32> = Vec::new();
    for i in 0..count
        invariant
            count <= 0x7fff_fffd,
            r@.len() == i,
            forall|j: int| 0 <= j < i ==> r@[j] == 3 + j,
    {
        r.push(3 + i as i32);
    }
    r
}

} // verus!
