use compatd::socket::{join_continuations, parse, to_s6};

#[test]
fn to_s6_full_script() {
    let s = parse(
        "[Unit]\nDescription=App socket\n[Socket]\nListenFIFO=/run/app.fifo\nListenDatagram=/run/app.dgram\nListenDatagram=0.0.0.0:514\nListenSequentialPacket=/run/app.seq\nListenStream=127.0.0.1:3000\nSocketUser=app\nService=app.service\n",
    );
    let expected = String::new()
        + "# App socket\n"
        + "# Activates: app.service\n"
        + "# s6 service directory — run script\n"
        + "# Place this file at: /etc/s6/servicedir/<name>/run\n"
        + "# chmod +x run\n\n"
        + "# ListenFIFO=/run/app.fifo: use a separate service with:\n#   mkfifo -m 600 /run/app.fifo\n#   cat /run/app.fifo | your-program\n\n"
        + "# ListenDatagram=/run/app.dgram: s6-udpserver not yet supported\n"
        + "# ListenDatagram=0.0.0.0:514: use s6-udpserver with -B flag\n"
        + "# ListenSequentialPacket: mapped as stream\n"
        + "#!/bin/execlineb -P\n\n"
        + "s6-setuidgid app\n"
        + "s6-tcpserver -b 128 -B \"127.0.0.1\" 3000 ./app.service";
    assert_eq!(to_s6(&s), expected);
}

#[test]
fn to_s6_empty_drops_one_newline() {
    let s = parse("");
    assert_eq!(
        to_s6(&s),
        "# s6 service directory — run script\n# Place this file at: /etc/s6/servicedir/<name>/run\n# chmod +x run\n"
    );
}

#[test]
fn to_s6_fifo_mode_and_unknown_address() {
    let s = parse("[Socket]\nListenFIFO=/f\nSocketMode=0640\n");
    assert!(to_s6(&s).ends_with("#   mkfifo -m 0640 /f\n#   cat /f | your-program\n"));
    let s = parse("[Socket]\nListenStream=docker\nListenStream=/second\n");
    assert!(to_s6(&s).ends_with("s6-ipcserver -l0 -- docker ./your-service-program"));
    let s = parse("[Socket]\nListenStream=./rel.sock\n");
    assert!(to_s6(&s).ends_with("s6-ipcserver -l0 -- ./rel.sock ./your-service-program"));
    let s = parse("[Socket]\nListenStream=[::1]:80\n");
    assert!(to_s6(&s).ends_with("s6-tcpserver -b 128 -B \"[::1]\" 80 ./your-service-program"));
}

#[test]
fn socket_lists_and_fields() {
    let s = parse(
        "[Socket]\nListenStream=/a\nListenStream=/b\nListenSequentialPacket=/s\nSocketGroup=g\nService=x.service\n",
    );
    assert_eq!(s.listen_stream, vec!["/a".to_string(), "/b".to_string()]);
    assert_eq!(s.listen_seq_packet, vec!["/s".to_string()]);
    assert_eq!(s.socket_group.as_deref(), Some("g"));
    assert_eq!(s.service.as_deref(), Some("x.service"));
    assert_eq!(join_continuations("p \\\n q"), "p q\n");
}
