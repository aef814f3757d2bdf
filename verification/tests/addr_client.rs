use tunnelion::addr::{parse_local_socket, parse_port, trim_str, LocalAddrError, PortErrorKind, SockAddr};
use tunnelion::sockparse::parse_socket_addr;
use tunnelion::bridge::{Bridge, BridgeAction, BridgeEvent};
use tunnelion::client::{
    build_name_to_local, client_config_from_parts, connect_hint, handshake_hint, prepare_client,
    ClientConfig, ReconnectPolicy, TunnelYaml,
};
use tunnelion::dashboard::ControlState;
use tunnelion::demo::{parse_demo_args, slow_wait_ms};
use tunnelion::text::{contains_str, lossy_preview};
use tunnelion::{ConfigError, ProtocolError};

#[test]
fn socket_address_text() {
    assert_eq!(SockAddr::V4 { ip: 0x7f00_0001, port: 9000 }.to_text(), "127.0.0.1:9000");
    let v6 = |ip: u128, port: u16, scope_id: u32| SockAddr::V6 { ip, port, flowinfo: 0, scope_id };
    assert_eq!(v6(1, 8080, 0).to_text(), "[::1]:8080");
    assert_eq!(v6(0, 1, 0).to_text(), "[::]:1");
    assert_eq!(v6(0x2001_0db8_0000_0000_0000_0000_0000_0001, 443, 0).to_text(), "[2001:db8::1]:443");
    assert_eq!(v6(0x0000_0000_0000_0000_0000_ffff_0102_0304, 1, 0).to_text(), "[::ffff:1.2.3.4]:1");
    assert_eq!(v6(0xfe80_0000_0000_0000_0000_0000_0000_0001, 22, 3).to_text(), "[fe80::1%3]:22");
    assert_eq!(v6(0x0001_0000_0001_0000_0000_0001_0000_0001, 1, 0).to_text(), "[1:0:1::1:0:1]:1");
    assert_eq!(v6(0x0001_0000_0002_0003_0004_0005_0006_0007, 1, 0).to_text(), "[1:0:2:3:4:5:6:7]:1");
    assert_eq!(v6(0x0001_0000_0000_0002_0000_0000_0003_0004, 1, 0).to_text(), "[1::2:0:0:3:4]:1");
}

#[test]
fn local_socket_forms() {
    let v4 = |ip: u32, port: u16| SockAddr::V4 { ip, port };
    let v6 = |ip: u128, port: u16| SockAddr::V6 { ip, port, flowinfo: 0, scope_id: 0 };
    assert_eq!(parse_local_socket("9000"), Ok(v4(0x7f00_0001, 9000)));
    assert_eq!(parse_local_socket(" 9000 "), Ok(v4(0x7f00_0001, 9000)));
    assert_eq!(parse_local_socket("127.0.0.1:8080"), Ok(v4(0x7f00_0001, 8080)));
    assert_eq!(parse_local_socket("[::1]:80"), Ok(v6(1, 80)));
    assert_eq!(parse_local_socket("\t[::1]:9000\n"), Ok(v6(1, 9000)));
    assert_eq!(parse_local_socket("+80"), Ok(v4(0x7f00_0001, 80)));
    let bad_port = |k: PortErrorKind| Err(LocalAddrError::InvalidPort(k));
    assert_eq!(parse_local_socket("abc"), bad_port(PortErrorKind::InvalidDigit));
    assert_eq!(parse_local_socket("70000"), bad_port(PortErrorKind::PosOverflow));
    assert_eq!(parse_local_socket("99999x"), bad_port(PortErrorKind::PosOverflow));
    assert_eq!(parse_local_socket("9999x"), bad_port(PortErrorKind::InvalidDigit));
    assert_eq!(parse_local_socket(""), bad_port(PortErrorKind::Empty));
    assert_eq!(parse_local_socket("  "), bad_port(PortErrorKind::Empty));
    assert_eq!(parse_local_socket("+"), bad_port(PortErrorKind::InvalidDigit));
    assert_eq!(parse_local_socket("-1"), bad_port(PortErrorKind::InvalidDigit));
    assert_eq!(parse_local_socket("localhost:80"), Err(LocalAddrError::InvalidAddr));
    assert_eq!(parse_local_socket("127.0.0.1:"), Err(LocalAddrError::InvalidAddr));
    assert_eq!(parse_local_socket(":80"), Err(LocalAddrError::InvalidAddr));
    assert_eq!(LocalAddrError::InvalidAddr.message(), "invalid addr (expected host:port or port)");
    assert_eq!(LocalAddrError::InvalidPort(PortErrorKind::Empty).message(), "invalid port");
    assert_eq!(LocalAddrError::InvalidAddr.cause(), "invalid socket address syntax");
    assert_eq!(LocalAddrError::InvalidPort(PortErrorKind::Empty).cause(), "cannot parse integer from empty string");
    assert_eq!(LocalAddrError::InvalidPort(PortErrorKind::InvalidDigit).cause(), "invalid digit found in string");
    assert_eq!(
        LocalAddrError::InvalidPort(PortErrorKind::PosOverflow).cause(),
        "number too large to fit in target type"
    );
}

#[test]
fn socket_address_grammar() {
    let v4 = |ip: u32, port: u16| Some(SockAddr::V4 { ip, port });
    let v6 = |ip: u128, port: u16, scope_id: u32| Some(SockAddr::V6 { ip, port, flowinfo: 0, scope_id });
    let cases: Vec<(&str, Option<SockAddr>)> = vec![
        ("127.0.0.1:8080", v4(0x7f00_0001, 8080)),
        ("0.0.0.0:0", v4(0, 0)),
        ("255.255.255.255:65535", v4(0xffff_ffff, 65535)),
        ("256.0.0.1:80", None),
        ("01.2.3.4:80", None),
        ("1.2.3:80", None),
        ("1.2.3.4.5:80", None),
        ("1.2.3.4:65536", None),
        ("1.2.3.4:0080", v4(0x0102_0304, 80)),
        ("1.2.3.4:+80", None),
        ("1.2.3.4", None),
        ("1.2.3.4:80 ", None),
        (" 1.2.3.4:80", None),
        ("1234.2.3.4:80", None),
        ("[::1]:80", v6(1, 80, 0)),
        ("[::]:1", v6(0, 1, 0)),
        ("[::1]", None),
        ("::1:80", None),
        ("[1:2:3:4:5:6:7:8]:9", v6(0x0001_0002_0003_0004_0005_0006_0007_0008, 9, 0)),
        ("[1:2:3:4:5:6:7:8:9]:9", None),
        ("[1::2::3]:9", None),
        ("[1:2:3:4:5:6:7::]:9", v6(0x0001_0002_0003_0004_0005_0006_0007_0000, 9, 0)),
        ("[::2:3:4:5:6:7:8]:9", v6(0x0000_0002_0003_0004_0005_0006_0007_0008, 9, 0)),
        ("[1:2:3:4:5:6:7::8]:9", None),
        ("[::ffff:1.2.3.4]:1", v6(0x0000_0000_0000_0000_0000_ffff_0102_0304, 1, 0)),
        ("[1:2:3:4:5:6:1.2.3.4]:1", v6(0x0001_0002_0003_0004_0005_0006_0102_0304, 1, 0)),
        ("[1:2:3:4:5:6:7:1.2.3.4]:1", None),
        ("[1.2.3.4::]:1", None),
        ("[::1.2.3.4]:1", v6(0x0102_0304, 1, 0)),
        ("[fe80::1%3]:22", v6(0xfe80_0000_0000_0000_0000_0000_0000_0001, 22, 3)),
        ("[fe80::1%]:22", None),
        ("[fe80::1%4294967295]:22", v6(0xfe80_0000_0000_0000_0000_0000_0000_0001, 22, 4294967295)),
        ("[fe80::1%4294967296]:22", None),
        ("[FFFF:abcd::0012]:1", v6(0xffff_abcd_0000_0000_0000_0000_0000_0012, 1, 0)),
        ("[FFFF:abcd::00012]:1", None),
        ("[abcd0::1]:1", None),
        ("[2001:db8::1]:443", v6(0x2001_0db8_0000_0000_0000_0000_0000_0001, 443, 0)),
        ("localhost:80", None),
        ("", None),
        (":", None),
        ("[]:1", None),
        ("1.2.3.4:\u{96e}\u{966}", None),
    ];
    for (text, want) in cases {
        assert_eq!(parse_socket_addr(text), want, "{text:?}");
    }
}

#[test]
fn socket_address_values() {
    assert_eq!(parse_socket_addr("10.1.2.3:9"), Some(SockAddr::V4 { ip: 0x0a01_0203, port: 9 }));
    assert_eq!(
        parse_socket_addr("[::ffff:1.2.3.4]:1"),
        Some(SockAddr::V6 { ip: 0x0000_0000_0000_0000_0000_ffff_0102_0304, port: 1, flowinfo: 0, scope_id: 0 })
    );
    assert_eq!(
        parse_socket_addr("[fe80::1%3]:22"),
        Some(SockAddr::V6 { ip: 0xfe80_0000_0000_0000_0000_0000_0000_0001, port: 22, flowinfo: 0, scope_id: 3 })
    );
    assert_eq!(parse_socket_addr("01.2.3.4:80"), None);
    for a in [
        SockAddr::V4 { ip: 0xc000_0201, port: 443 },
        SockAddr::V6 { ip: 0x2001_0db8_0000_0000_0000_0000_0000_0001, port: 8443, flowinfo: 0, scope_id: 0 },
        SockAddr::V6 { ip: 0xfe80_0000_0000_0000_0000_0000_0000_0001, port: 22, flowinfo: 0, scope_id: 7 },
    ] {
        assert_eq!(parse_socket_addr(&a.to_text()), Some(a));
    }
}

#[test]
fn ports_parse_like_std() {
    for s in ["0", "1", "65535", "65536", "+7", "++7", "", "+", "-0", "007", " 7", "99999999999", "1a"] {
        assert_eq!(parse_port(s), s.parse::<u16>().ok(), "{s:?}");
    }
    assert_eq!(trim_str("\u{3000} a b \u{2028}"), "a b");
}

#[test]
fn port_errors_match_std() {
    for s in ["", " ", "+", "-", "a", "65536", "655360", "99999x", "9999x", "x99999", "+65536", "++1", "1 2", "\u{663}", "0065535", "00065536"] {
        let want = match s.trim().parse::<u16>() {
            Ok(p) => Ok(SockAddr::V4 { ip: 0x7f00_0001, port: p }),
            Err(e) => Err(LocalAddrError::InvalidPort(match e.kind() {
                std::num::IntErrorKind::Empty => PortErrorKind::Empty,
                std::num::IntErrorKind::PosOverflow => PortErrorKind::PosOverflow,
                _ => PortErrorKind::InvalidDigit,
            })),
        };
        assert_eq!(parse_local_socket(s), want, "{s:?}");
        if let (Err(LocalAddrError::InvalidPort(k)), Err(e)) = (parse_local_socket(s), s.trim().parse::<u16>()) {
            assert_eq!(LocalAddrError::InvalidPort(k).cause(), e.to_string(), "{s:?}");
        }
    }
}

fn yaml_client_config(yaml: &str) -> Result<ClientConfig, ConfigError> {
    let root: serde_yaml::Value = serde_yaml::from_str(yaml).unwrap();
    let relay = root["relay"]["addr"].as_str().unwrap().to_string();
    let mut tunnels: std::collections::BTreeMap<String, TunnelYaml> = std::collections::BTreeMap::new();
    for (name, t) in root["tunnels"].as_mapping().unwrap() {
        tunnels.insert(
            name.as_str().unwrap().to_string(),
            TunnelYaml {
                addr: t["addr"].as_str().unwrap().to_string(),
                domain: t["domain"].as_str().unwrap().to_string(),
            },
        );
    }
    client_config_from_parts(&relay, tunnels.into_iter().collect())
}

#[test]
fn valid_single_tunnel() {
    let yaml = r#"
relay:
  addr: "127.0.0.1:9000"
tunnels:
  app:
    addr: "8080"
    domain: "app.example.com"
"#;
    let cfg = yaml_client_config(yaml).expect("parse");
    assert_eq!(cfg.relay_addr.to_text(), "127.0.0.1:9000");
    assert_eq!(cfg.tunnels.len(), 1);
}

#[test]
fn valid_two_tunnels() {
    let yaml = r#"
relay:
  addr: "127.0.0.1:1"
tunnels:
  a:
    addr: "1"
    domain: "a"
  b:
    addr: "127.0.0.1:2"
    domain: "b"
"#;
    let mut cfg = yaml_client_config(yaml).unwrap();
    assert_eq!(cfg.tunnels.len(), 2);
    cfg.psk = b"k".to_vec();
    let routes = prepare_client(&cfg).unwrap();
    assert_eq!(routes.lookup(&"a".to_string()), Some(SockAddr::V4 { ip: 0x7f00_0001, port: 1 }));
    assert_eq!(routes.lookup(&"b".to_string()), Some(SockAddr::V4 { ip: 0x7f00_0001, port: 2 }));
}

fn config(tunnels: Vec<(&str, &str)>) -> ClientConfig {
    ClientConfig {
        relay_addr: SockAddr::V4 { ip: 0x7f00_0001, port: 9000 },
        psk: b"psk".to_vec(),
        tunnels: tunnels
            .into_iter()
            .map(|(n, a)| (n.to_string(), TunnelYaml { addr: a.to_string(), domain: format!("{n}.local") }))
            .collect(),
    }
}

#[test]
fn routes_send_names_to_their_local_addresses() {
    let cfg = config(vec![("alpha", "9001"), ("beta", "127.0.0.2:9002")]);
    let routes = build_name_to_local(&cfg).unwrap();
    assert_eq!(routes.len(), 2);
    assert_eq!(routes.lookup(&"alpha".to_string()), Some(SockAddr::V4 { ip: 0x7f00_0001, port: 9001 }));
    assert_eq!(routes.lookup(&"beta".to_string()), Some(SockAddr::V4 { ip: 0x7f00_0002, port: 9002 }));
    assert_eq!(routes.lookup(&"gamma".to_string()), None);
}

#[test]
fn bad_local_address_is_reported_with_its_tunnel() {
    let cfg = config(vec![("a", "1"), ("b", "port"), ("c", "x")]);
    let e = build_name_to_local(&cfg).err().unwrap();
    assert_eq!(
        e,
        ConfigError::BadTunnelAddr {
            name: "b".into(),
            addr: "port".into(),
            cause: LocalAddrError::InvalidPort(PortErrorKind::InvalidDigit)
        }
    );
    assert_eq!(e.message(), "tunnel \"b\" addr \"port\"");
    assert_eq!(e.cause(), Some("invalid port"));
    assert_eq!(e.inner_cause(), Some("invalid digit found in string"));
    let cfg = config(vec![("a", "1"), ("b", "localhost:80")]);
    let e = build_name_to_local(&cfg).err().unwrap();
    assert_eq!(
        e,
        ConfigError::BadTunnelAddr {
            name: "b".into(),
            addr: "localhost:80".into(),
            cause: LocalAddrError::InvalidAddr
        }
    );
    assert_eq!(e.cause(), Some("invalid addr (expected host:port or port)"));
    assert_eq!(e.inner_cause(), Some("invalid socket address syntax"));
    assert_eq!(ConfigError::BadRelayAddr.inner_cause(), None);
}

#[test]
fn prepare_requires_psk() {
    let mut cfg = config(vec![("a", "1")]);
    cfg.psk.clear();
    assert!(matches!(prepare_client(&cfg), Err(ConfigError::EmptyPsk)));
    cfg.psk = b"x".to_vec();
    assert!(prepare_client(&cfg).is_ok());
}

#[test]
fn client_config_checks_in_order() {
    let t = vec![("app".to_string(), TunnelYaml { addr: "8080".into(), domain: "app.example.com".into() })];
    assert_eq!(client_config_from_parts("nope", vec![]).err(), Some(ConfigError::ClientTunnelsEmpty));
    assert_eq!(client_config_from_parts("nope", t.clone()).err(), Some(ConfigError::BadRelayAddr));
    assert_eq!(client_config_from_parts("relay.example.com:9000", t.clone()).err(), Some(ConfigError::BadRelayAddr));
    assert_eq!(ConfigError::BadRelayAddr.cause(), Some("invalid socket address syntax"));
    let relay = SockAddr::V4 { ip: 0x7f00_0001, port: 9000 };
    let cfg = client_config_from_parts("127.0.0.1:9000", t).unwrap();
    assert_eq!(cfg.relay_addr, relay);
    assert!(cfg.psk.is_empty());
    assert_eq!(cfg.tunnels.len(), 1);
}

#[test]
fn reconnect_backoff_doubles_and_resets() {
    let mut p = ReconnectPolicy::new();
    assert_eq!(p.status(), ControlState::Connecting);
    let waits: Vec<u64> = (0..9).map(|_| p.session_failed()).collect();
    assert_eq!(waits, vec![500, 1000, 2000, 4000, 8000, 16000, 30000, 30000, 30000]);
    assert_eq!(p.backoff_ms(), 30000);
    assert_eq!(p.status(), ControlState::Connecting);
    assert_eq!(p.session_ended(), 500);
    assert_eq!(p.status(), ControlState::Reconnecting);
    assert_eq!(p.session_failed(), 500);
    assert_eq!(p.session_failed(), 1000);
}

#[test]
fn hints_for_errors() {
    assert_eq!(
        handshake_hint(&ProtocolError::InvalidHandshake),
        "PSK handshake failed: secret does not match the relay (check TUNNELION_PSK on client and server)."
    );
    assert_eq!(
        handshake_hint(&ProtocolError::BadVersion(2)),
        "Handshake failed: connected host does not speak tunnelion on this port (wrong service or corrupt first bytes)."
    );
    assert_eq!(handshake_hint(&ProtocolError::TunnelNameTooLong), "Protocol error: tunnel name too long (max 255)");
    let io = ProtocolError::Io(std::io::Error::new(std::io::ErrorKind::Other, "reset"));
    assert_eq!(handshake_hint(&io), "Network I/O error during handshake: reset");
    assert_eq!(
        connect_hint("connect relay 127.0.0.1:9"),
        Some("Cannot open TCP to relay at the configured address: connect relay 127.0.0.1:9".to_string())
    );
    assert_eq!(connect_hint("Connection refused (os error 111)").is_some(), true);
    assert_eq!(connect_hint("something else"), None);
}

#[test]
fn substring_search() {
    assert!(contains_str("abcabd", "abd"));
    assert!(contains_str("abc", ""));
    assert!(!contains_str("ab", "abc"));
    assert!(!contains_str("abcab", "abd"));
}

#[test]
fn preview_replaces_controls_and_invalid_bytes() {
    assert_eq!(lossy_preview(b"GET /\r\n\tx", 200), "GET /  \tx");
    assert_eq!(lossy_preview(b"hello", 3), "hel");
    assert_eq!(lossy_preview(&[0x66, 0xff, 0x67], 10), "f\u{fffd}g");
    assert_eq!(lossy_preview(&[0xe2, 0x82], 10), "\u{fffd}");
    assert_eq!(lossy_preview(b"abc", 0), "");
    let p = lossy_preview(&[0xff, 0xfe, 0x01, 0x7f, 0xc2, 0x85], 64);
    assert!(p.chars().count() <= 6);
    assert!(p.chars().all(|c| !c.is_control() || c == '\t'));
}

#[test]
fn bridge_half_close() {
    let mut b = Bridge::new();
    assert!(b.reads_tcp());
    assert_eq!(b.step(BridgeEvent::TcpRead(5)), BridgeAction::WriteTunnel(5));
    assert_eq!(b.step(BridgeEvent::TunnelRead(3)), BridgeAction::WriteTcp(3));
    assert_eq!(b.step(BridgeEvent::TcpRead(0)), BridgeAction::CloseTunnelWrite);
    assert!(!b.reads_tcp());
    assert_eq!(b.step(BridgeEvent::TunnelRead(4)), BridgeAction::WriteTcp(4));
    assert_eq!(b.step(BridgeEvent::TunnelRead(0)), BridgeAction::Finish);
    assert_eq!(b.bytes_to_tunnel(), 5);
    assert_eq!(b.bytes_to_tcp(), 7);
}

#[test]
fn demo_arguments_and_wait() {
    assert_eq!(parse_demo_args(&vec!["8080".into(), " app ".into()]), Some((8080, "app".to_string())));
    assert_eq!(parse_demo_args(&vec!["0".into(), "app".into()]), None);
    assert_eq!(parse_demo_args(&vec!["8080".into(), "  ".into()]), None);
    assert_eq!(parse_demo_args(&vec!["8080".into()]), None);
    assert_eq!(parse_demo_args(&vec!["x".into(), "app".into()]), None);
    assert_eq!(slow_wait_ms(None), 1000);
    assert_eq!(slow_wait_ms(Some(5)), 5);
    assert_eq!(slow_wait_ms(Some(500_000)), 120_000);
}
