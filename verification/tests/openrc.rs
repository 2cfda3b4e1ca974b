use compatd::openrc::generate;
use compatd::unit;

#[test]
fn test_generate_simple() {
    let svc = unit::parse("\
[Unit]
Description=Test

[Service]
Type=simple
ExecStart=/usr/bin/myd
User=daemon
Environment=PATH=/usr/bin
");
    let out = generate(&svc);
    assert!(out.contains("description=\"Test\""));
    assert!(out.contains("command=\"/usr/bin/myd\""));
    assert!(out.contains("command_user=\"daemon\""));
    assert!(out.contains("export PATH=/usr/bin"));
}

#[test]
fn test_generate_supervisor() {
    let svc = unit::parse("\
[Service]
ExecStart=/usr/bin/myd
Restart=always
");
    let out = generate(&svc);
    assert!(out.contains("supervisor=\"supervise-daemon\""));
}

#[test]
fn test_generate_environment_file() {
    let svc = unit::parse("\
[Service]
ExecStart=/usr/bin/myd
EnvironmentFile=/etc/default/myd
");
    let out = generate(&svc);
    assert!(out.contains(r#". "/etc/default/myd""#));
}
