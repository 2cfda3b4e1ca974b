use compatd::mount::{parse, to_fstab};

#[test]
fn mount_test_parse_basic() {
    let input = "\
[Unit]
Description=Backup drive

[Mount]
What=/dev/sdb1
Where=/mnt/backup
Type=ext4
Options=defaults,noatime
Dump=0
PassNo=2
";
    let m = parse(input);
    assert_eq!(m.description.as_deref(), Some("Backup drive"));
    assert_eq!(m.what.as_deref(), Some("/dev/sdb1"));
    assert_eq!(m.where_mount.as_deref(), Some("/mnt/backup"));
    assert_eq!(m.fs_type.as_deref(), Some("ext4"));
    assert_eq!(m.options.as_deref(), Some("defaults,noatime"));
    assert_eq!(m.dump, 0);
    assert_eq!(m.pass, 2);
}

#[test]
fn test_to_fstab() {
    let input = "\
[Mount]
What=/dev/sdb1
Where=/mnt/backup
Type=ext4
Options=defaults
Dump=0
PassNo=2
";
    let m = parse(input);
    let out = to_fstab(&m);
    assert_eq!(out, "/dev/sdb1\t/mnt/backup\text4\tdefaults\t0\t2\n");
}

#[test]
fn test_defaults() {
    let m = parse("[Mount]\nWhat=none\n");
    let out = to_fstab(&m);
    assert_eq!(out, "none\t/mnt/unknown\tauto\tdefaults\t0\t0\n");
}
