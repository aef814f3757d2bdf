use tunnelion::relay::{
    after_control_connection, relay_file_config_from_parts, relay_file_with_psk,
    validate_tunnel_list, ControlOutcome, RelayNext, TunnelListen,
};
use tunnelion::{tunnel_accept_step, ConfigError, SockAddr, TunnelAction, TunnelEvent};

fn local(port: u16) -> SockAddr {
    SockAddr::V4 { ip: 0x7f00_0001, port }
}

#[test]
fn validate_rejects_duplicate_listen() {
    let tunnels = vec![
        TunnelListen { name: "a".into(), listen: local(1) },
        TunnelListen { name: "b".into(), listen: local(1) },
    ];
    let e = validate_tunnel_list(&tunnels).unwrap_err();
    assert!(e.message().contains("duplicate listen"));
}

#[test]
fn validate_rejects_duplicate_name() {
    let tunnels = vec![
        TunnelListen { name: "x".into(), listen: local(1) },
        TunnelListen { name: "x".into(), listen: local(2) },
    ];
    let e = validate_tunnel_list(&tunnels).unwrap_err();
    assert!(e.message().contains("duplicate tunnel name"));
}

#[test]
fn validate_messages_are_exact() {
    let tunnels = vec![
        TunnelListen { name: "a".into(), listen: local(1) },
        TunnelListen { name: "b".into(), listen: local(1) },
    ];
    assert_eq!(
        validate_tunnel_list(&tunnels).unwrap_err().message(),
        "relay: duplicate listen address 127.0.0.1:1 (each tunnel needs a distinct port)"
    );
    let tunnels = vec![
        TunnelListen { name: "x".into(), listen: local(1) },
        TunnelListen { name: "x".into(), listen: local(2) },
    ];
    assert_eq!(
        validate_tunnel_list(&tunnels).unwrap_err().message(),
        "relay: duplicate tunnel name \"x\""
    );
    assert_eq!(validate_tunnel_list(&[]).unwrap_err(), ConfigError::NoTunnels);
}

#[test]
fn validate_name_checked_before_address_on_same_entry() {
    let tunnels = vec![
        TunnelListen { name: "a".into(), listen: local(1) },
        TunnelListen { name: "a".into(), listen: local(1) },
    ];
    assert_eq!(
        validate_tunnel_list(&tunnels).unwrap_err(),
        ConfigError::DuplicateTunnelName("a".into())
    );
}

#[test]
fn validate_first_offending_entry_decides() {
    let tunnels = vec![
        TunnelListen { name: "a".into(), listen: local(1) },
        TunnelListen { name: "b".into(), listen: local(1) },
        TunnelListen { name: "a".into(), listen: local(3) },
    ];
    assert_eq!(validate_tunnel_list(&tunnels).unwrap_err(), ConfigError::DuplicateListen(local(1)));
}

#[test]
fn validate_accepts_distinct() {
    let tunnels = vec![
        TunnelListen { name: "api".into(), listen: local(8002) },
        TunnelListen { name: "app".into(), listen: local(8001) },
    ];
    assert!(validate_tunnel_list(&tunnels).is_ok());
}

#[test]
fn relay_file_config_from_parts_orders_checks() {
    assert_eq!(
        relay_file_config_from_parts("x", vec![]).unwrap_err(),
        ConfigError::RelayTunnelsEmpty
    );
    assert_eq!(
        relay_file_config_from_parts("0.0.0.0", vec![("app".into(), "127.0.0.1:8001".into())]).unwrap_err(),
        ConfigError::BadControlAddr
    );
    assert_eq!(
        relay_file_config_from_parts(
            "0.0.0.0:9000",
            vec![("a".into(), "127.0.0.1:1".into()), ("b".into(), "8002".into()), ("c".into(), "x".into())]
        )
        .unwrap_err(),
        ConfigError::BadListenAddr("b".into())
    );
    let e = relay_file_config_from_parts(
        "0.0.0.0:9000",
        vec![("a".into(), "127.0.0.1:1".into()), ("b".into(), "127.0.0.1:1".into())],
    )
    .unwrap_err();
    assert_eq!(e, ConfigError::DuplicateListen(local(1)));
    assert_eq!(e.message(), "relay: duplicate listen address 127.0.0.1:1 (each tunnel needs a distinct port)");
}

#[test]
fn relay_file_config_roundtrip_with_psk() {
    let f = relay_file_config_from_parts(
        "127.0.0.1:9000",
        vec![("api".into(), "127.0.0.1:8002".into()), ("app".into(), "127.0.0.1:8001".into())],
    )
    .unwrap();
    assert_eq!(f.control_listen.port(), 9000);
    assert_eq!(f.tunnels.len(), 2);
    assert_eq!(f.tunnels[1].name, "app");
    let cfg = relay_file_with_psk(f, b"psk".to_vec());
    assert_eq!(cfg.psk, b"psk".to_vec());
    assert_eq!(cfg.tunnels[0].listen, local(8002));
    assert_eq!(cfg.control_listen, local(9000));
}

#[test]
fn parse_relay_yaml_roundtrip() {
    let yaml = r#"
control:
  addr: "127.0.0.1:9000"
tunnels:
  app:
    listen: "127.0.0.1:8001"
  api:
    listen: "127.0.0.1:8002"
"#;
    let root: serde_yaml::Value = serde_yaml::from_str(yaml).unwrap();
    let control = root["control"]["addr"].as_str().unwrap().to_string();
    let mut tunnels: std::collections::BTreeMap<String, String> = std::collections::BTreeMap::new();
    for (name, entry) in root["tunnels"].as_mapping().unwrap() {
        tunnels.insert(
            name.as_str().unwrap().to_string(),
            entry["listen"].as_str().unwrap().to_string(),
        );
    }
    let f = relay_file_config_from_parts(&control, tunnels.into_iter().collect()).unwrap();
    assert_eq!(f.control_listen.port(), 9000);
    assert_eq!(f.tunnels.len(), 2);
}

#[test]
fn config_error_messages() {
    assert_eq!(ConfigError::BadListenAddr("app".into()).message(), "tunnels.app.listen must be a socket address");
    assert_eq!(ConfigError::RelayTunnelsEmpty.message(), "relay: tunnels: must contain at least one tunnel");
    let bad = ConfigError::BadTunnelAddr {
        name: "a\"b".into(),
        addr: "x\ty".into(),
        cause: tunnelion::LocalAddrError::InvalidPort(tunnelion::addr::PortErrorKind::InvalidDigit),
    };
    assert_eq!(bad.message(), "tunnel \"a\\\"b\" addr \"x\\ty\"");
    for name in ["caf\u{e9}", "soft\u{ad}hyphen", "zero\u{200b}width", "e\u{301}", "nul\0", "bell\u{7}", "c1\u{85}"] {
        let e = ConfigError::DuplicateTunnelName(name.into());
        assert_eq!(e.message(), format!("relay: duplicate tunnel name {name:?}"));
    }
    assert_eq!(ConfigError::BadControlAddr.cause(), Some("invalid socket address syntax"));
    assert_eq!(ConfigError::BadListenAddr("app".into()).cause(), Some("invalid socket address syntax"));
    assert_eq!(ConfigError::NoTunnels.cause(), None);
    assert_eq!(ConfigError::EmptyPsk.message(), "PSK is empty (set from environment)");
}

#[test]
fn relay_keeps_serving_after_failed_handshake() {
    assert_eq!(after_control_connection(ControlOutcome::HandshakeFailed), RelayNext::AcceptNext);
    assert_eq!(after_control_connection(ControlOutcome::SessionEnded), RelayNext::AcceptNext);
}

#[test]
fn tunnel_accept_loop_decisions() {
    assert_eq!(tunnel_accept_step(TunnelEvent::Shutdown), TunnelAction::Stop);
    assert_eq!(tunnel_accept_step(TunnelEvent::ShutdownLagged), TunnelAction::Wait);
    assert_eq!(tunnel_accept_step(TunnelEvent::AcceptFailed), TunnelAction::Fail);
    assert_eq!(tunnel_accept_step(TunnelEvent::Accepted), TunnelAction::OpenStream);
    assert_eq!(tunnel_accept_step(TunnelEvent::OpenFailed), TunnelAction::ShutdownAndFail);
    assert_eq!(tunnel_accept_step(TunnelEvent::Opened), TunnelAction::WriteHeader);
    assert_eq!(tunnel_accept_step(TunnelEvent::HeaderFailed), TunnelAction::DropConnection);
    assert_eq!(tunnel_accept_step(TunnelEvent::HeaderWritten), TunnelAction::SpawnBridge);
}
