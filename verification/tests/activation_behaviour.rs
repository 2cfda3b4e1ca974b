use compatd::activate::{
    fd_targets, listen_address, listen_fd_names, listen_fds_value, parse_config, ListenAddress,
};
use compatd::cgroup::{cgroup_path, numeric_uid, subtree_control};
use compatd::systemctl::unit_search_paths;

#[test]
fn address_kinds() {
    assert!(matches!(listen_address("/run/x.sock"), ListenAddress::Unix));
    assert!(matches!(listen_address("./x"), ListenAddress::Unix));
    assert!(matches!(listen_address("docker"), ListenAddress::Unknown));
    assert!(matches!(listen_address(""), ListenAddress::Unknown));
    match listen_address("[::1]:8080") {
        ListenAddress::Tcp { host, port } => {
            assert_eq!(host, "[::1]");
            assert_eq!(port, "8080");
        }
        _ => panic!("expected a TCP address"),
    }
}

#[test]
fn fd_names_after_last_slash() {
    let cfg = parse_config(&[
        "/run/docker.sock".to_string(),
        "0.0.0.0:80".to_string(),
        "a/b/".to_string(),
    ]);
    assert_eq!(listen_fd_names(&cfg), "docker.sock:0.0.0.0:80:");
    assert_eq!(listen_fd_names(&parse_config(&[])), "");
}

#[test]
fn cgroup_paths() {
    assert_eq!(cgroup_path("docker", ""), "/sys/fs/cgroup/system.slice/docker");
    assert_eq!(cgroup_path("docker", "/sys/fs/cgroup/x"), "/sys/fs/cgroup/x");
}

#[test]
fn subtree_control_lines() {
    assert_eq!(subtree_control("cpu io  memory\n"), Some("+cpu +io +memory ".to_string()));
    assert_eq!(subtree_control(" \n"), None);
    assert_eq!(subtree_control(""), None);
}

#[test]
fn numeric_uids() {
    assert_eq!(numeric_uid("1000"), Some(1000));
    assert_eq!(numeric_uid("+7"), Some(7));
    assert_eq!(numeric_uid("4294967295"), Some(u32::MAX));
    assert_eq!(numeric_uid("4294967296"), None);
    assert_eq!(numeric_uid("root"), None);
    assert_eq!(numeric_uid("-1"), None);
    assert_eq!(numeric_uid(""), None);
}

#[test]
fn search_paths() {
    assert_eq!(
        unit_search_paths("docker"),
        vec![
            "/usr/lib/systemd/system/docker.service".to_string(),
            "/etc/systemd/system/docker.service".to_string(),
            "/run/systemd/system/docker.service".to_string(),
        ]
    );
}

#[test]
fn listen_fds_and_targets() {
    assert_eq!(listen_fds_value(0), "0");
    assert_eq!(listen_fds_value(12), "12");
    assert_eq!(fd_targets(3), vec![3, 4, 5]);
    assert!(fd_targets(0).is_empty());
}
