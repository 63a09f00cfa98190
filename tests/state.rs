use duwop::state::{AppState, ScannedEntry, ServiceConfigError, ServiceType};

fn scan_entries() -> Vec<ScannedEntry> {
    vec![
        ScannedEntry::Directory { name: "blog".to_string(), root: "/srv/blog".to_string() },
        ScannedEntry::File { name: "api".to_string(), first_line: "proxy:127.0.0.1:3000".to_string() },
        ScannedEntry::NonUnicode("bad\u{FFFD}name".to_string()),
        ScannedEntry::Unreadable { name: "locked".to_string(), error: "permission denied".to_string() },
    ]
}

#[test]
fn parse_config_reads_proxy_files_correctly() {
    let addr_str = "127.0.0.1:8080";
    match ServiceType::parse_config(&format!("proxy:{}", addr_str)) {
        ServiceType::ReverseProxy(port) => assert_eq!(port, 8080),
        _ => panic!("expected a proxy"),
    }
}

#[test]
fn parse_config_returns_invalid_config_if_proxy_with_invalid_socket_addr() {
    match ServiceType::parse_config("proxy:localhost") {
        ServiceType::InvalidConfig(e) => {
            assert!(e.contains("not a valid <host:port>"), "wrong InvalidConfig message");
        }
        _ => panic!("bad response from parse_config"),
    }
}

#[test]
fn parse_config_returns_invalid_config_if_proxy_with_no_socket_addr() {
    match ServiceType::parse_config("proxy") {
        ServiceType::InvalidConfig(e) => {
            assert!(e.contains("missing socket address"), "wrong InvalidConfig message");
        }
        _ => panic!("returned bad response"),
    }
}

#[test]
fn parse_config_tags_unknown_directive_as_invalid_config() {
    match ServiceType::parse_config("wrong:something") {
        ServiceType::InvalidConfig(e) => {
            assert!(e.contains("invalid directive"), "wrong InvalidConfig message");
            assert_eq!(e, "invalid directive: 'wrong'");
        }
        _ => panic!("returned bad response"),
    }
}

#[test]
fn parse_config_ignores_proxy_host_and_always_refers_to_localhost() {
    match ServiceType::parse_config("proxy:10.0.0.1:9999") {
        ServiceType::ReverseProxy(port) => assert_eq!(port, 9999),
        _ => panic!("returned bad response"),
    }
}

#[test]
fn parse_config_accepts_bracketed_ipv6_hosts() {
    assert!(matches!(ServiceType::parse_config("proxy:[::1]:8000"), ServiceType::ReverseProxy(8000)));
}

#[test]
fn parse_config_rejects_bad_ports_and_hosts() {
    assert!(matches!(ServiceType::parse_config("proxy:127.0.0.1:70000"), ServiceType::InvalidConfig(_)));
    assert!(matches!(ServiceType::parse_config("proxy:127.0.0.1:"), ServiceType::InvalidConfig(_)));
    assert!(matches!(ServiceType::parse_config("proxy:256.0.0.1:80"), ServiceType::InvalidConfig(_)));
    assert!(matches!(ServiceType::parse_config("proxy:1.2.3:80"), ServiceType::InvalidConfig(_)));
    assert!(matches!(ServiceType::parse_config("proxy:01.2.3.4:80"), ServiceType::InvalidConfig(_)));
    assert!(matches!(ServiceType::parse_config("proxy:127.0.0.1:65535"), ServiceType::ReverseProxy(65535)));
}

#[test]
fn parse_config_extracts_links_from_directories() {
    let mut state = AppState::new("/state");
    let scan = vec![ScannedEntry::Directory { name: "test".to_string(), root: "/some/source".to_string() }];
    assert!(state.load_services(Ok(scan)).is_ok());
    match state.get("test") {
        Some(ServiceType::StaticFiles(p)) => assert_eq!(p, "/some/source"),
        _ => panic!("expected static files"),
    }
}

#[test]
fn load_builds_registry_and_diagnostics() {
    let mut state = AppState::new("/state");
    assert_eq!(state.path(), "/state");
    state.load_services(Ok(scan_entries())).unwrap();
    assert!(matches!(state.get("blog"), Some(ServiceType::StaticFiles(_))));
    assert!(matches!(state.get("api"), Some(ServiceType::ReverseProxy(3000))));
    assert!(state.get("locked").is_none());
    assert_eq!(state.names().len(), 2);
    let errors = state.errors();
    assert_eq!(errors.len(), 2);
    match &errors[0] {
        ServiceConfigError::NameError(n) => assert_eq!(n, "bad\u{FFFD}name"),
        _ => panic!("expected a name error"),
    }
    match &errors[1] {
        ServiceConfigError::IoError(m) => assert_eq!(m, "locked: permission denied"),
        _ => panic!("expected an io error"),
    }
}

#[test]
fn non_unicode_name_gives_name_error_and_no_entry() {
    let mut state = AppState::new("/state");
    state.load_services(Ok(vec![ScannedEntry::NonUnicode("x\u{FFFD}".to_string())])).unwrap();
    assert_eq!(state.names().len(), 0);
    assert_eq!(state.errors().len(), 1);
    assert!(matches!(&state.errors()[0], ServiceConfigError::NameError(_)));
}

#[test]
fn names_are_lowercased_and_checked() {
    let mut state = AppState::new("/state");
    let scan = vec![
        ScannedEntry::Directory { name: "Blog".to_string(), root: "/a".to_string() },
        ScannedEntry::Directory { name: "blog".to_string(), root: "/b".to_string() },
        ScannedEntry::Directory { name: "my.site".to_string(), root: "/c".to_string() },
        ScannedEntry::Directory { name: "my-site2".to_string(), root: "/d".to_string() },
    ];
    state.load_services(Ok(scan)).unwrap();
    match state.get("blog") {
        Some(ServiceType::StaticFiles(p)) => assert_eq!(p, "/a"),
        _ => panic!("expected the first blog"),
    }
    assert!(state.get("Blog").is_none());
    assert!(state.get("my-site2").is_some());
    assert_eq!(state.names().len(), 2);
    assert_eq!(state.errors().len(), 2);
}

#[test]
fn reload_replaces_everything_and_failed_scan_keeps_it() {
    let mut state = AppState::new("/state");
    state.load_services(Ok(scan_entries())).unwrap();
    let next = vec![ScannedEntry::Directory { name: "c".to_string(), root: "/c".to_string() }];
    state.load_services(Ok(next)).unwrap();
    assert!(state.get("blog").is_none());
    assert!(state.get("c").is_some());
    assert_eq!(state.errors().len(), 0);
    let failed = state.load_services(Err("no such directory".to_string()));
    assert_eq!(failed, Err("no such directory".to_string()));
    assert!(state.get("c").is_some());
}

#[test]
fn two_reloads_of_the_same_scan_agree() {
    let mut state = AppState::new("/state");
    state.load_services(Ok(scan_entries())).unwrap();
    let mut first = state.names();
    first.sort();
    let first_errors = state.errors().len();
    state.load_services(Ok(scan_entries())).unwrap();
    let mut second = state.names();
    second.sort();
    assert_eq!(first, second);
    assert_eq!(first_errors, state.errors().len());
}

fn port_of_line(line: &str) -> Option<u16> {
    match ServiceType::parse_config(line) {
        ServiceType::ReverseProxy(p) => Some(p),
        _ => None,
    }
}

#[test]
fn ipv6_hosts_follow_the_socket_address_grammar() {
    assert_eq!(port_of_line("proxy:[:]:80"), None);
    assert_eq!(port_of_line("proxy:[::1]:8000"), Some(8000));
    assert_eq!(port_of_line("proxy:[fe80::1%3]:80"), Some(80));
    assert_eq!(port_of_line("proxy:[fe80::1%]:80"), None);
    assert_eq!(port_of_line("proxy:[1:2:3:4:5:6:7:8]:1"), Some(1));
    assert_eq!(port_of_line("proxy:[1:2:3:4:5:6:7:8:9]:1"), None);
    assert_eq!(port_of_line("proxy:[::ffff:1.2.3.4]:2"), Some(2));
    assert_eq!(port_of_line("proxy:[1:2:3:4:5:6:1.2.3.4]:9"), Some(9));
    assert_eq!(port_of_line("proxy:[1.2.3.4::]:1"), None);
    assert_eq!(port_of_line("proxy:[1::2::3]:1"), None);
    assert_eq!(port_of_line("proxy:[12345::]:1"), None);
    assert_eq!(port_of_line("proxy:[1:2:3:4:5:6:7::]:9"), Some(9));
    assert_eq!(port_of_line("proxy:[::1:2:3:4:5:6:7]:9"), Some(9));
    assert_eq!(port_of_line("proxy:[::1:2:3:4:5:6:7:8]:9"), None);
    assert_eq!(port_of_line("proxy:[1:2:3:4::5:6:7:8]:9"), None);
    assert_eq!(port_of_line("proxy:[]:9"), None);
}

#[test]
fn ports_may_have_leading_zeros() {
    assert_eq!(port_of_line("proxy:127.0.0.1:0080"), Some(80));
    assert_eq!(port_of_line("proxy:127.0.0.1:000065535"), Some(65535));
    assert_eq!(port_of_line("proxy:127.0.0.1:65536"), None);
}

#[test]
fn non_unicode_name_anywhere_is_reported() {
    let mut state = AppState::new("/state");
    state
        .load_services(Ok(vec![
            ScannedEntry::Directory { name: "a".to_string(), root: "/a".to_string() },
            ScannedEntry::NonUnicode("b\u{FFFD}".to_string()),
            ScannedEntry::Directory { name: "c".to_string(), root: "/c".to_string() },
        ]))
        .unwrap();
    assert_eq!(state.names().len(), 2);
    assert_eq!(state.errors().len(), 1);
    assert!(matches!(&state.errors()[0], ServiceConfigError::NameError(n) if n == "b\u{FFFD}"));
}
