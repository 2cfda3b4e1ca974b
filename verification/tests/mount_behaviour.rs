use compatd::mount::{join_continuations, parse, to_fstab};

#[test]
fn fstab_with_comments_and_signs() {
    let m = parse("[Unit]\nDescription=Data\n[Mount]\nWhat=/dev/x\nDirectoryMode=0755\nDump=-1\nPass=+3\n");
    assert_eq!(m.dump, -1);
    assert_eq!(m.pass, 3);
    assert_eq!(
        to_fstab(&m),
        "# Data\n# DirectoryMode=0755\n/dev/x\t/mnt/unknown\tauto\tdefaults\t-1\t3\n"
    );
}

#[test]
fn mount_numbers_that_do_not_read_are_zero() {
    let m = parse("[Mount]\nDump=abc\nPassNo=2147483648\n");
    assert_eq!(m.dump, 0);
    assert_eq!(m.pass, 0);
    let m = parse("[Mount]\nDump=-2147483648\nPassNo=2147483647\n");
    assert_eq!(m.dump, i32::MIN);
    assert_eq!(m.pass, i32::MAX);
    let m = parse("[Mount]\nDump=-\nPass=+\n");
    assert_eq!(m.dump, 0);
    assert_eq!(m.pass, 0);
}

#[test]
fn mount_last_value_wins() {
    let m = parse("[Mount]\nWhat=/a\nWhat=/b\nType=xfs\nOptions=ro\nWhere=/w\n");
    assert_eq!(to_fstab(&m), "/b\t/w\txfs\tro\t0\t0\n");
}

#[test]
fn mount_continuations() {
    let m = parse("[Mount]\nOptions=rw,\\\n  noatime\n");
    assert_eq!(m.options.as_deref(), Some("rw, noatime"));
    assert_eq!(join_continuations("a\\\nb"), "a b\n");
}

#[test]
fn mount_unit_to_fstab_line() {
    let m = parse("[Mount]\nWhat=server:/export\nWhere=/mnt/nfs\nType=nfs\n");
    assert_eq!(to_fstab(&m), "server:/export\t/mnt/nfs\tnfs\tdefaults\t0\t0\n");
}
