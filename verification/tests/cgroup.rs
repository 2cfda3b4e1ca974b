use compatd::cgroup::CgroupConfig;

#[test]
fn test_cgroup_config_defaults() {
    let cfg = CgroupConfig {
        path: "/sys/fs/cgroup/test".to_string(),
        delegate: true,
        user: None,
    };
    assert_eq!(cfg.path, "/sys/fs/cgroup/test");
    assert!(cfg.delegate);
}
