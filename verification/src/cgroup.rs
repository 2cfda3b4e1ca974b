//! Cgroup delegation: where the cgroup lives, what its `cgroup.subtree_control`
//! gets, and whose it becomes.
use vstd::prelude::*;

use crate::text::{
    chars_of, framed, parse_u32, parse_u32_chars, push_chars, push_str, seqs, split_words,
    string_of, trim, trimmed, words,
};

verus! {

/// What `compatd cgroup` sets up.
#[derive(Debug)]
pub struct CgroupConfig {
    pub path: String,
    pub delegate: bool,
    pub user: Option<String>,
}

impl Default for CgroupConfig {
    /// No path, no delegation, no user.
    fn default() -> (r: CgroupConfig)
        ensures
            r.path@.len() == 0,
            !r.delegate,
            r.user is None,
    {
        CgroupConfig { path: String::new(), delegate: false, user: None }
    }
}

/// The cgroup directory: `path` when given, else the service's directory
/// under `/sys/fs/cgroup/system.slice/`.
pub open spec fn cgroup_dir(name: Seq<char>, path: Seq<char>) -> Seq<char> {
    if path.len() == 0 {
        "/sys/fs/cgroup/system.slice/"@ + name
    } else {
        path
    }
}

/// The cgroup directory for the service `name`, or `path` when it is given.
pub fn cgroup_path(name: &str, path: &str) -> (r: String)
    ensures
        r@ == cgroup_dir(name@, path@),
{
    let mut buf: Vec<char> = Vec::new();
    if path.unicode_len() == 0 {
        push_str(&mut buf, "/sys/fs/cgroup/system.slice/");
        push_str(&mut buf, name);
    } else {
        push_str(&mut buf, path);
        assert(buf@ =~= path@);
    }
    string_of(&buf)
}

/// What enabling every controller of the list `controllers` writes to
/// `cgroup.subtree_control`: `+name ` for each; nothing when there is none.
pub open spec fn subtree_control_text(controllers: Seq<char>) -> Option<Seq<char>> {
    let t = trim(controllers);
    if t.len() == 0 {
        None
    } else {
        Some(framed(words(t), "+"@, " "@))
    }
}

/// What to write to `cgroup.subtree_control` to enable the controllers that
/// `cgroup.controllers` lists, when it lists any.
pub fn subtree_control(controllers: &str) -> (r: Option<String>)
    ensures
        match r {
            Some(s) => subtree_control_text(controllers@) == Some(s@),
            None => subtree_control_text(controllers@) is None,
        },
{
    let t = trimmed(&chars_of(controllers));
    if t.len() == 0 {
        return None;
    }
    let ws = split_words(&t);
    let ghost all = seqs(ws@);
    let mut buf: Vec<char> = Vec::new();
    for i in 0..ws.len()
        invariant
            all == seqs(ws@),
            buf@ == framed(all.take(i as int), "+"@, " "@),
    {
        assert(all.take(i + 1).drop_last() =~= all.take(i as int));
        assert(all.take(i + 1).last() == ws@[i as int]@);
        push_str(&mut buf, "+");
        push_chars(&mut buf, &ws[i]);
        push_str(&mut buf, " ");
        assert(buf@ =~= framed(all.take(i + 1), "+"@, " "@));
    }
    assert(all.take(ws@.len() as int) =~= all);
    Some(string_of(&buf))
}

/// The user id that `user` gives as a number, when it is one (else `user`
/// is a name to look up).
pub fn numeric_uid(user: &str) -> (r: Option<u32>)
    ensures
        r == parse_u32(user@),
{
    parse_u32_chars(&chars_of(user))
}

} // verus!
