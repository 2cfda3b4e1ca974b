//! Where `systemctl cat` and `systemctl whereis` look for a unit.
use vstd::prelude::*;

use crate::text::{push_str, string_of, strings_view};

verus! {

/// The places of the unit file of `name`, in the order they are tried:
/// `/usr/lib/systemd/system`, `/etc/systemd/system`, `/run/systemd/system`.
pub open spec fn search_paths(name: Seq<char>) -> Seq<Seq<char>> {
    seq![
        "/usr/lib/systemd/system/"@ + name + ".service"@,
        "/etc/systemd/system/"@ + name + ".service"@,
        "/run/systemd/system/"@ + name + ".service"@,
    ]
}

fn unit_path(dir: &str, name: &str) -> (r: String)
    ensures
        r@ == dir@ + name@ + ".service"@,
{
    let mut buf: Vec<char> = Vec::new();
    push_str(&mut buf, dir);
    push_str(&mut buf, name);
    push_str(&mut buf, ".service");
    string_of(&buf)
}

/// The places of the unit file of the service `name`, in the order to try them.
pub fn unit_search_paths(name: &str) -> (r: Vec<String>)
    ensures
        strings_view(r@) == search_paths(name@),
{
    let mut r: Vec<String> = Vec::new();
    r.push(unit_path("/usr/lib/systemd/system/", name));
    r.push(unit_path("/etc/systemd/system/", name));
    r.push(unit_path("/run/systemd/system/", name));
    assert(strings_view(r@) =~= search_paths(name@));
    r
}

} // verus!
