use compatd::activate::parse_config;

#[test]
fn test_parse_config() {
    let streams = vec!["/run/test.sock".to_string()];
    let cfg = parse_config(&streams);
    assert_eq!(cfg.listen_stream.len(), 1);
    assert_eq!(cfg.listen_stream[0], "/run/test.sock");
}
