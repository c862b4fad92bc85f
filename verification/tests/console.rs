use s3tunnel::console::read_target;
use s3tunnel::master::cmd::Cmd;
use s3tunnel::server::{parse_connect, Target};

#[test]
fn server_command_is_parsed() {
    assert_eq!(
        Cmd::parse("server 10.0.0.1 8080".to_string()),
        Ok(Cmd::Server("10.0.0.1".to_string(), 8080))
    );
    assert_eq!(
        Cmd::parse("server example.org +22".to_string()),
        Ok(Cmd::Server("example.org".to_string(), 22))
    );
    assert_eq!(
        Cmd::parse("server\tlocalhost\t0".to_string()),
        Ok(Cmd::Server("localhost".to_string(), 0))
    );
}

#[test]
fn server_command_with_a_bad_port_is_refused() {
    let err = Cmd::parse("server 10.0.0.1 80800".to_string()).unwrap_err();
    assert!(err.contains("Cannot parse 80800"), "{}", err);
    assert!(err.ends_with('\n'));
    assert!(Cmd::parse("server 10.0.0.1 ssh".to_string()).is_err());
}

#[test]
fn incomplete_server_command_is_refused() {
    for line in ["server", "server 10.0.0.1", "server 10.0.0.1 22 23", "server  10.0.0.1 22"] {
        let err = Cmd::parse(line.to_string()).unwrap_err();
        assert!(err.ends_with('\n'), "{:?}", line);
    }
}

#[test]
fn other_words_are_refused() {
    assert!(Cmd::parse("connect 10.0.0.1 80".to_string()).is_err());
    assert!(Cmd::parse("".to_string()).is_err());
    assert!(Cmd::parse("--version".to_string()).is_err());
    assert!(Cmd::parse("-V".to_string()).is_err());
    assert!(Cmd::parse("server -V".to_string()).is_err());
    assert!(Cmd::parse("--bogus".to_string()).is_err());
}

#[test]
fn help_is_an_error_that_holds_the_usage() {
    let err = Cmd::parse("--help".to_string()).unwrap_err();
    assert!(err.contains("USAGE"), "{}", err);
    assert!(err.contains("server"), "{}", err);
    let err = Cmd::parse("help".to_string()).unwrap_err();
    assert!(err.contains("USAGE"), "{}", err);
    assert!(err.contains("Connect to the address."), "{}", err);
    let err = Cmd::parse("server --help".to_string()).unwrap_err();
    assert!(err.contains("ip address to connect to"), "{}", err);
    assert!(err.contains("port to listen on this machine"), "{}", err);
}

#[test]
fn parsing_is_repeatable() {
    for line in ["server a 1", "server", "help", "x", ""] {
        assert_eq!(Cmd::parse(line.to_string()), Cmd::parse(line.to_string()));
    }
}

#[test]
fn from_target_keeps_target_and_error() {
    assert_eq!(
        Cmd::from_target(Ok(("h".to_string(), 1))),
        Ok(Cmd::Server("h".to_string(), 1))
    );
    assert_eq!(Cmd::from_target(Err("no".to_string())), Err("no".to_string()));
}

#[test]
fn read_target_for_each_outcome() {
    let both = |a: &str, p: &str| Ok(Some((Some(a.to_string()), Some(p.to_string()))));
    assert_eq!(read_target(both("h", "22"), true), Ok(("h".to_string(), 22)));
    assert_eq!(read_target(both("h", "+22"), false), Ok(("h".to_string(), 22)));
    assert_eq!(read_target(both("h", "x"), true), Err("Cannot parse x".to_string()));
    assert_eq!(read_target(both("h", "65536"), false), Err("Cannot parse 65536".to_string()));
    assert_eq!(read_target(Ok(None), true), Err("Unknown command".to_string()));
    assert_eq!(
        read_target(Ok(Some((Some("h".to_string()), None))), true),
        Err("Unknown command".to_string())
    );
    assert_eq!(
        read_target(Ok(Some((None, Some("22".to_string())))), false),
        Err("Unknown command".to_string())
    );
    assert_eq!(read_target(Err("bad".to_string()), true), Err("bad\n".to_string()));
    assert_eq!(read_target(Err("bad".to_string()), false), Err("bad".to_string()));
}

#[test]
fn connect_command_is_parsed() {
    assert_eq!(parse_connect("connect 10.1.1.1 2222".to_string()), Ok(("10.1.1.1".to_string(), 2222)));
    let err = parse_connect("connect 10.1.1.1".to_string()).unwrap_err();
    assert!(!err.ends_with('\n'));
    assert!(parse_connect("server 10.1.1.1 22".to_string()).is_err());
    assert!(parse_connect("connect 10.1.1.1 -5".to_string()).is_err());
}

#[test]
fn connect_command_redirects_the_target() {
    let mut target = Target::new("127.0.0.1".to_string(), 22);
    assert_eq!(target.redirect("connect 10.0.0.9 8022".to_string()), None);
    assert_eq!(target, Target { ip: "10.0.0.9".to_string(), port: 8022 });
    let shown = target.redirect("conect 10.0.0.10 1".to_string());
    assert!(shown.is_some());
    assert_eq!(target, Target { ip: "10.0.0.9".to_string(), port: 8022 });
    let shown = target.redirect("connect 10.0.0.10 99999".to_string()).unwrap();
    assert!(shown.contains("Cannot parse 99999"), "{}", shown);
    assert_eq!(target.port, 8022);
}
