use tunnelion::ConfigError;

#[test]
fn tunnel_name_quoting_matches_debug_formatting() {
    let names = [
        "app", "a\"b", "tab\there", "line\nbreak", "cr\r", "back\\slash", "nul\0x", "bell\u{7}",
        "del\u{7f}", "c1\u{85}", "quote'single", "é", "日本", "",
    ];
    for name in names {
        let e = ConfigError::DuplicateTunnelName(name.to_string());
        assert_eq!(e.message(), format!("relay: duplicate tunnel name {:?}", name));
    }
}

