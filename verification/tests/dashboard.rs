use tunnelion::client::ClientConfig;
use tunnelion::dashboard::{format_bytes, row_highlighted, row_status, ControlState, DashboardStats};
use tunnelion::{SockAddr, TunnelYaml};

#[test]
fn format_bytes_smoke() {
    assert!(format_bytes(0).contains('B'));
    assert!(format_bytes(2048).contains("KiB"));
}

#[test]
fn format_bytes_exact_values() {
    assert_eq!(format_bytes(0), "0 B");
    assert_eq!(format_bytes(1023), "1023 B");
    assert_eq!(format_bytes(1024), "1.0 KiB");
    assert_eq!(format_bytes(2048), "2.0 KiB");
    assert_eq!(format_bytes(1536), "1.5 KiB");
    assert_eq!(format_bytes(1048575), "1024.0 KiB");
    assert_eq!(format_bytes(1048576), "1.00 MiB");
    assert_eq!(format_bytes(5 * 1048576 + 524288), "5.50 MiB");
}

#[test]
fn format_bytes_matches_float_formatting() {
    let mut samples: Vec<u64> = Vec::new();
    for n in 0..5000u64 {
        samples.push(n);
        samples.push(1024 * n + 51);
        samples.push(1048576 + 10485 * n);
        samples.push(1048576 * n + 5243);
    }
    for k in 50..64u32 {
        let base = 1u64 << k;
        for d in 0..2100u64 {
            samples.push(base.wrapping_add(d));
            samples.push(base.wrapping_sub(d));
        }
    }
    samples.push(u64::MAX);
    samples.push(u64::MAX - 1024);
    for n in samples {
        let expected = if n < 1024 {
            format!("{n} B")
        } else if n < 1024 * 1024 {
            format!("{:.1} KiB", n as f64 / 1024.0)
        } else {
            format!("{:.2} MiB", n as f64 / (1024.0 * 1024.0))
        };
        assert_eq!(format_bytes(n), expected, "n = {n}");
    }
}

#[test]
fn control_state_codes_round_trip() {
    for s in [
        ControlState::Starting,
        ControlState::Connecting,
        ControlState::Live,
        ControlState::Reconnecting,
        ControlState::Down,
    ] {
        assert_eq!(ControlState::from_code(s.code()), s);
    }
    assert_eq!(ControlState::from_code(200), ControlState::Starting);
    assert_eq!(ControlState::Live.label(), "connected");
    assert_eq!(ControlState::Reconnecting.label(), "reconnecting…");
}

fn sample_config() -> ClientConfig {
    ClientConfig {
        relay_addr: SockAddr::V4 { ip: 0xcb00_7132, port: 9780 },
        psk: b"k".to_vec(),
        tunnels: vec![
            (
                "api".to_string(),
                TunnelYaml { addr: "9001".to_string(), domain: "api.example.com".to_string() },
            ),
            (
                "app".to_string(),
                TunnelYaml { addr: "127.0.0.1:9000".to_string(), domain: "app.example.com".to_string() },
            ),
        ],
    }
}

#[test]
fn dashboard_rows_follow_config_and_count_streams() {
    let mut d = DashboardStats::new(&sample_config()).unwrap();
    assert_eq!(d.relay_display(), "203.0.113.50:9780");
    assert_eq!(d.control_state(), ControlState::Starting);
    assert_eq!(d.tunnels().len(), 2);
    assert_eq!(d.tunnels()[1].name, "app");
    assert_eq!(d.tunnels()[1].local_addr_display, "127.0.0.1:9000");
    assert_eq!(d.tunnels()[1].domain, "app.example.com");

    d.set_control(ControlState::Live);
    assert_eq!(d.control_state(), ControlState::Live);

    let row = d.row_index(&"app".to_string()).unwrap();
    assert_eq!(row, 1);
    assert_eq!(d.row_index(&"nope".to_string()), None);
    let g1 = d.begin_stream(row);
    let g2 = d.begin_stream(row);
    assert_eq!(d.tunnels()[row].active_streams, 2);
    d.end_stream(g1);
    assert_eq!(d.tunnels()[row].active_streams, 1);
    assert_eq!(d.tunnels()[0].active_streams, 0);
    d.end_stream(g2);
    assert_eq!(d.tunnels()[row].active_streams, 0);

    d.add_bytes_in(0, 10);
    d.add_bytes_out(0, 7);
    d.add_bytes_in(0, 5);
    assert_eq!(d.tunnels()[0].bytes_in, 15);
    assert_eq!(d.tunnels()[0].bytes_out, 7);
}

#[test]
fn row_begin_stream_counts_on_the_row() {
    let d = DashboardStats::new(&sample_config()).unwrap();
    let mut row = d.tunnels()[0].clone_row();
    let g = row.begin_stream();
    assert_eq!(row.active_streams, 1);
    row.end_stream(g);
    assert_eq!(row.active_streams, 0);
    assert_eq!(row.name, "api");
}

#[test]
fn stream_guard_ends_on_the_row_it_began_on() {
    let mut d = DashboardStats::new(&sample_config()).unwrap();
    let g_api = d.begin_stream(0);
    let g_app = d.begin_stream(1);
    let g_app2 = d.begin_stream(1);
    assert_eq!((d.tunnels()[0].active_streams, d.tunnels()[1].active_streams), (1, 2));
    d.end_stream(g_api);
    assert_eq!((d.tunnels()[0].active_streams, d.tunnels()[1].active_streams), (0, 2));
    d.end_stream(g_app2);
    d.end_stream(g_app);
    assert_eq!((d.tunnels()[0].active_streams, d.tunnels()[1].active_streams), (0, 0));
}

#[test]
fn row_status_texts() {
    assert_eq!(row_status(ControlState::Connecting, 3), "…");
    assert_eq!(row_status(ControlState::Live, 3), "Active (3)");
    assert_eq!(row_status(ControlState::Live, 0), "Idle");
    assert!(row_highlighted(ControlState::Live, 1));
    assert!(!row_highlighted(ControlState::Down, 1));
    assert!(!row_highlighted(ControlState::Live, 0));
}
