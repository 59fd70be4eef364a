use chating::cli::{parse_cli, parse_ipv4, parse_port, take_value};
use chating::types::{Connection, Mode, USAGE};

fn args(v: &[&str]) -> Vec<String> {
    v.iter().map(|s| s.to_string()).collect()
}

fn parsed(v: &[&str]) -> (Connection, Result<(), String>) {
    let mut c = Connection::default();
    let r = parse_cli(&mut c, &args(v));
    (c, r)
}

#[test]
fn mode_default_is_connect() {
    assert_eq!(Mode::default(), Mode::Connect);
}

#[test]
fn defaults() {
    let c = Connection::default();
    assert_eq!(*c.mode(), Mode::Connect);
    assert_eq!(c.ip(), [0, 0, 0, 0]);
    assert_eq!(c.port(), 0);
    assert!(c.my_priv().is_none());
    assert!(c.peer_pub().is_none());
    assert!(c.out_dir().is_none());
}

#[test]
fn setters_and_getters() {
    let mut c = Connection::default();
    c.set_mode(Mode::Listen);
    c.set_ip([1, 2, 3, 4]);
    c.set_port(9);
    c.set_my_priv("p".to_string());
    c.set_peer_pub("q".to_string());
    c.set_out_dir("d".to_string());
    assert_eq!(*c.mode(), Mode::Listen);
    assert_eq!(c.ip(), [1, 2, 3, 4]);
    assert_eq!(c.port(), 9);
    assert_eq!(c.my_priv().unwrap(), "p");
    assert_eq!(c.peer_pub().unwrap(), "q");
    assert_eq!(c.out_dir().unwrap(), "d");
}

#[test]
fn connect_command() {
    let (c, r) = parsed(&[
        "connect", "--ip", "192.168.1.12", "--port", "1230", "--my-priv", "a.pem", "--peer-pub", "b.pem",
    ]);
    assert_eq!(r, Ok(()));
    assert_eq!(*c.mode(), Mode::Connect);
    assert_eq!(c.ip(), [192, 168, 1, 12]);
    assert_eq!(c.port(), 1230);
    assert_eq!(c.my_priv().unwrap(), "a.pem");
    assert_eq!(c.peer_pub().unwrap(), "b.pem");
}

#[test]
fn connect_requires_an_address() {
    let (c, r) = parsed(&["connect", "--port", "1230", "--my-priv", "a.pem", "--peer-pub", "b.pem"]);
    assert_eq!(r, Err(format!("connect requires --ip, --port, --my-priv, --peer-pub\n{USAGE}")));
    assert_eq!(*c.mode(), Mode::Connect);
    assert_eq!(c.port(), 1230);
    let (c, r) = parsed(&["connect", "--ip", "0.0.0.0", "--port", "5", "--my-priv", "a", "--peer-pub", "b"]);
    assert_eq!(r, Ok(()));
    assert_eq!(c.ip(), [0, 0, 0, 0]);
}

#[test]
fn listen_command_binds_unspecified_address() {
    let (c, r) = parsed(&["listen", "--port", "1230", "--my-priv", "a", "--peer-pub", "b"]);
    assert_eq!(r, Ok(()));
    assert_eq!(*c.mode(), Mode::Listen);
    assert_eq!(c.ip(), [0, 0, 0, 0]);
    assert_eq!(c.port(), 1230);
}

#[test]
fn setup_command() {
    let (c, r) = parsed(&["setup", "--out-dir", "keys"]);
    assert_eq!(r, Ok(()));
    assert_eq!(*c.mode(), Mode::Setup);
    assert_eq!(c.out_dir().unwrap(), "keys");
}

#[test]
fn later_option_wins() {
    let (c, r) = parsed(&["listen", "--port", "1", "--port", "2", "--my-priv", "a", "--peer-pub", "b"]);
    assert_eq!(r, Ok(()));
    assert_eq!(c.port(), 2);
}

#[test]
fn empty_or_unknown_mode() {
    assert_eq!(parsed(&[]).1, Err(USAGE.to_string()));
    let (c, r) = parsed(&["chat"]);
    assert_eq!(r, Err(USAGE.to_string()));
    assert_eq!(*c.mode(), Mode::Connect);
    assert_eq!("listen".parse::<Mode>(), Ok(Mode::Listen));
    assert_eq!("Listen".parse::<Mode>(), Err(USAGE.to_string()));
}

#[test]
fn missing_requirements() {
    assert_eq!(
        parsed(&["connect", "--ip", "1.2.3.4", "--port", "5", "--my-priv", "a"]).1,
        Err(format!("connect requires --ip, --port, --my-priv, --peer-pub\n{USAGE}"))
    );
    assert_eq!(
        parsed(&["listen", "--my-priv", "a", "--peer-pub", "b"]).1,
        Err(format!("listen requires --port, --my-priv, --peer-pub\n{USAGE}"))
    );
    assert_eq!(
        parsed(&["listen", "--port", "0", "--my-priv", "a", "--peer-pub", "b"]).1,
        Err(format!("listen requires --port, --my-priv, --peer-pub\n{USAGE}"))
    );
    assert_eq!(parsed(&["setup"]).1, Err(format!("setup requires --out-dir\n{USAGE}")));
}

#[test]
fn option_errors() {
    assert_eq!(parsed(&["connect", "--port"]).1, Err("--port requires a value".to_string()));
    assert_eq!(
        parsed(&["connect", "--port", "70000"]).1,
        Err("--port must be a valid number".to_string())
    );
    assert_eq!(
        parsed(&["connect", "--ip", "1.2.3"]).1,
        Err("--ip must be a valid ip".to_string())
    );
    assert_eq!(
        parsed(&["listen", "--ip", "1.2.3.4"]).1,
        Err(format!("unknown argument --ip\n{USAGE}"))
    );
    assert_eq!(
        parsed(&["setup", "--port", "1"]).1,
        Err(format!("unknown argument --port\n{USAGE}"))
    );
    assert_eq!(parsed(&["setup", "--out-dir"]).1, Err("--out-dir requires a value".to_string()));
}

#[test]
fn settings_read_before_an_error_stay() {
    let (c, r) = parsed(&["connect", "--port", "7", "--bogus"]);
    assert!(r.is_err());
    assert_eq!(c.port(), 7);
    assert_eq!(*c.mode(), Mode::Connect);
}

#[test]
fn failed_listen_and_setup_keep_other_settings() {
    let mut c = Connection::default();
    c.set_mode(Mode::Setup);
    c.set_ip([9, 8, 7, 6]);
    c.set_out_dir("d".to_string());
    let r = parse_cli(&mut c, &args(&["listen", "--port", "3", "--my-priv", "a"]));
    assert!(r.is_err());
    assert_eq!(*c.mode(), Mode::Setup);
    assert_eq!(c.ip(), [9, 8, 7, 6]);
    assert_eq!(c.out_dir().unwrap(), "d");
    assert_eq!(c.port(), 3);

    let mut c = Connection::default();
    c.set_port(4);
    c.set_my_priv("k".to_string());
    let r = parse_cli(&mut c, &args(&["setup", "--out-dir", "x", "--port", "1"]));
    assert!(r.is_err());
    assert_eq!(*c.mode(), Mode::Connect);
    assert_eq!(c.port(), 4);
    assert_eq!(c.my_priv().unwrap(), "k");
    assert_eq!(c.out_dir().unwrap(), "x");
}

#[test]
fn accepted_listen_and_setup() {
    let mut c = Connection::default();
    c.set_ip([1, 1, 1, 1]);
    let r = parse_cli(&mut c, &args(&["listen", "--peer-pub", "b", "--port", "8", "--my-priv", "a"]));
    assert_eq!(r, Ok(()));
    assert_eq!(c.ip(), [0, 0, 0, 0]);
    assert_eq!(c.peer_pub().unwrap(), "b");

    let mut c = Connection::default();
    c.set_out_dir("before".to_string());
    c.set_port(6);
    assert_eq!(parse_cli(&mut c, &args(&["setup"])), Ok(()));
    assert_eq!(*c.mode(), Mode::Setup);
    assert_eq!(c.out_dir().unwrap(), "before");
    assert_eq!(c.port(), 6);
    let r = parse_cli(&mut c, &args(&["setup", "--out-dir", "a", "--out-dir", "b"]));
    assert_eq!(r, Ok(()));
    assert_eq!(c.out_dir().unwrap(), "b");
}

#[test]
fn take_value_cases() {
    let a = args(&["--port", "1"]);
    assert_eq!(take_value(&a, 0, "--port"), Ok(&a[1]));
    assert_eq!(take_value(&a, 1, "--x"), Err("--x requires a value".to_string()));
}

#[test]
fn port_numbers() {
    assert_eq!(parse_port("1230"), Some(1230));
    assert_eq!(parse_port("+80"), Some(80));
    assert_eq!(parse_port("0065535"), Some(65535));
    assert_eq!(parse_port("65536"), None);
    assert_eq!(parse_port("99999999999999999999"), None);
    assert_eq!(parse_port(""), None);
    assert_eq!(parse_port("+"), None);
    assert_eq!(parse_port("-1"), None);
    assert_eq!(parse_port(" 1"), None);
    assert_eq!(parse_port("1a"), None);
    for s in ["0", "7", "+0", "443", "65535", "12x", "++1", "٣"] {
        assert_eq!(parse_port(s), s.parse::<u16>().ok(), "{s}");
    }
}

#[test]
fn ipv4_addresses() {
    assert_eq!(parse_ipv4("192.168.1.12"), Some([192, 168, 1, 12]));
    assert_eq!(parse_ipv4("0.0.0.0"), Some([0, 0, 0, 0]));
    assert_eq!(parse_ipv4("255.255.255.255"), Some([255, 255, 255, 255]));
    for s in [
        "1.2.3", "1.2.3.4.5", "256.1.1.1", "01.2.3.4", "1..2.3", ".1.2.3", "1.2.3.4.", "1.2.3.a",
        "1.2.3.0004", "", "1.2.3.-4", " 1.2.3.4", "0.0.0.00", "1.2.3.4 ",
    ] {
        assert_eq!(parse_ipv4(s), None, "{s}");
    }
    assert_eq!(parse_ipv4("10.0.0.1"), Some([10, 0, 0, 1]));
    assert_eq!(parse_ipv4("127.0.0.1"), Some([127, 0, 0, 1]));
    assert_eq!(parse_ipv4("0.10.100.255"), Some([0, 10, 100, 255]));
    assert_eq!(parse_ipv4("300.1.1.1"), None);
    assert_eq!(parse_ipv4("00.1.1.1"), None);
}
