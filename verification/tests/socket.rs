use compatd::socket::{parse, to_s6};

#[test]
fn test_parse_unix_socket() {
    let input = "\
[Unit]
Description=Docker socket

[Socket]
ListenStream=/run/docker.sock
SocketMode=0660
SocketUser=root
SocketGroup=docker
";
    let s = parse(input);
    assert_eq!(s.description.as_deref(), Some("Docker socket"));
    assert_eq!(s.listen_stream.len(), 1);
    assert_eq!(s.listen_stream[0], "/run/docker.sock");
    assert_eq!(s.socket_mode.as_deref(), Some("0660"));
    assert_eq!(s.socket_group.as_deref(), Some("docker"));
}

#[test]
fn test_parse_tcp_socket() {
    let input = "\
[Socket]
ListenStream=0.0.0.0:8080
";
    let s = parse(input);
    assert_eq!(s.listen_stream.len(), 1);
    assert_eq!(s.listen_stream[0], "0.0.0.0:8080");
}

#[test]
fn test_to_s6_unix() {
    let input = "\
[Socket]
ListenStream=/run/app.sock
SocketUser=myapp
SocketMode=0660
";
    let s = parse(input);
    let out = to_s6(&s);
    assert!(out.contains("s6-setuidgid myapp"));
    assert!(out.contains("s6-ipcserver"));
    assert!(out.contains("/run/app.sock"));
}

#[test]
fn test_to_s6_tcp() {
    let input = "\
[Socket]
ListenStream=127.0.0.1:3000
";
    let s = parse(input);
    let out = to_s6(&s);
    assert!(out.contains("127.0.0.1"));
    assert!(out.contains("3000"));
}
