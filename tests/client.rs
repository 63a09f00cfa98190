use duwop::app_defaults::{in_home_dir, state_dir};
use duwop::client::{process_client_response, validate_ca, Client, DuwopClient, LogCommand};
use duwop::management::{LogLevel, Request, Response};
use duwop::setup::Setup;
use duwop::ssl::{leaf_names, leaf_san_names};
use duwop::state::{AppState, ScannedEntry};

#[test]
fn test_validate_ca_non_existing_cert() {
    let key = "/no/such/key";
    let cert = "/no/such/cert";
    let res = validate_ca(key, cert, || Ok(true)).unwrap();
    assert!(res.is_none(), "should return None, indicating not configured");
}

#[test]
fn process_response_when_error_should_not_contain_the_word_error() {
    let error = process_client_response(Ok(Response::Error("some error".to_string()))).unwrap_err();
    assert!(!error.contains("ERROR"));
    assert_eq!(error, "Error from server: some error");
}

#[test]
fn process_response_accepts_ok_answers() {
    assert!(process_client_response(Ok(Response::Done)).is_ok());
    assert!(process_client_response(Ok(Response::Message("m".to_string()))).is_ok());
    assert_eq!(process_client_response(Err("refused".to_string())), Err("refused".to_string()));
}

#[test]
fn test_link_input_with_name_and_dir() {
    let client = DuwopClient::new(1111, "/state".to_string());
    let (path, name) = client
        .parse_create_static_file_configuration_input(Some("name".to_string()), "/tmp")
        .unwrap();
    assert_eq!(path, "/tmp");
    assert_eq!(name, "/state/name");
}

#[test]
fn link_input_names_service_after_directory() {
    let client = DuwopClient::new(1111, "/state/".to_string());
    let (path, name) = client.parse_create_static_file_configuration_input(None, "/home/me/site").unwrap();
    assert_eq!(path, "/home/me/site");
    assert_eq!(name, "/state/site");
    assert!(client.parse_create_static_file_configuration_input(None, "/").is_err());
}

#[test]
fn client_commands_build_requests() {
    let client = DuwopClient::new(9054, "/state".to_string());
    assert_eq!(client.reload_server_configuration().serialize(), "Reload");
    assert_eq!(client.reload_ssl().serialize(), "ReloadSsl");
    assert_eq!(client.check_server_status().serialize(), "Status");
    assert!(matches!(client.run_log_command(LogCommand::Debug, None), Request::SetLogLevel(LogLevel::DebugLevel)));
    assert_eq!(client.run_log_command(LogCommand::Custom, Some("x=info".to_string())).serialize(), "Log custom x=info");
    assert_eq!(client.run_log_command(LogCommand::Reset, None).serialize(), "Log reset");
}

#[test]
fn client_reads_server_lines() {
    let client = Client::new(9054);
    assert_eq!(client.port, 9054);
    assert!(matches!(client.read_response(Ok("OK\n".to_string())), Ok(Response::Done)));
    match client.read_response(Ok("garbage".to_string())) {
        Err(m) => assert_eq!(m, "error response from server: invalid response from server: garbage"),
        Ok(_) => panic!("expected an error"),
    }
}

#[test]
fn test_mk_ca_signed_cert_with_empty_san() {
    let sans = leaf_san_names(&vec![]);
    assert_eq!(sans[0], "duwop.test");
    assert_eq!(sans.len(), 1);
}

#[test]
fn test_mk_ca_signed_cert_with_names() {
    let sans = leaf_san_names(&vec!["hello".to_string(), "world".to_string()]);
    assert_eq!(sans.len(), 4);
    assert_eq!(sans, vec!["hello.test", "*.hello.test", "world.test", "*.world.test"]);
}

#[test]
fn leaf_covers_registry_after_reload() {
    let mut state = AppState::new("/state");
    state.load_services(Ok(vec![ScannedEntry::Directory { name: "c".to_string(), root: "/c".to_string() }])).unwrap();
    let sans = leaf_names(&state);
    assert!(sans.contains(&"c.test".to_string()));
    assert!(sans.contains(&"*.c.test".to_string()));
}

#[test]
fn ca_freshness_verdict() {
    assert!(duwop::ssl::validate_ca(-3, 0));
    assert!(!duwop::ssl::validate_ca(2, 0));
    assert!(!duwop::ssl::validate_ca(0, 5));
}

#[test]
fn default_paths_live_under_home() {
    assert_eq!(in_home_dir("/home/me", ".duwop"), "/home/me/.duwop");
    assert_eq!(state_dir("/home/me/"), "/home/me/.duwop/state");
    let setup = Setup::new(true, "/home/me");
    assert_eq!(setup.agent_file, "/home/me/Library/LaunchAgents/org.babysnakes.duwop.plist");
    assert_eq!(setup.resolver_file, "/etc/resolver/test");
    assert_eq!(setup.ca_cert_file, "/home/me/Library/Application Support/io.duwop/cert.pem");
    assert_eq!(setup.ca_required(Err("missing".to_string())), Ok(true));
    assert_eq!(setup.ca_required(Ok(Ok(true))), Ok(false));
    assert_eq!(setup.ca_required(Ok(Err("bad".to_string()))), Err("bad".to_string()));
}

#[test]
fn print_services_lists_in_name_order() {
    let mut state = AppState::new("/state");
    state
        .load_services(Ok(vec![
            ScannedEntry::File { name: "web".to_string(), first_line: "proxy:127.0.0.1:8080".to_string() },
            ScannedEntry::Directory { name: "blog".to_string(), root: "/srv/blog".to_string() },
            ScannedEntry::File { name: "api".to_string(), first_line: "nope".to_string() },
        ]))
        .unwrap();
    let client = DuwopClient::new(9054, "/state".to_string());
    assert_eq!(
        client.print_services(&state),
        vec![
            "* api [Config Error]: invalid directive: 'nope'",
            "* blog [Static Files Directory]: /srv/blog",
            "* web [Reverse Proxy]: http://127.0.0.1:8080",
        ]
    );
}

#[test]
fn create_static_file_configuration_names_link() {
    let client = DuwopClient::new(9054, "/state".to_string());
    match client.create_static_file_configuration(None, "/home/me/site") {
        Ok((duwop::state::ServiceType::StaticFiles(dir), link)) => {
            assert_eq!(dir, "/home/me/site");
            assert_eq!(link, "/state/site");
        }
        _ => panic!("expected a static service"),
    }
}

#[test]
fn database_status_sorts_problems() {
    let mut state = AppState::new("/state");
    state
        .load_services(Ok(vec![
            ScannedEntry::File { name: "api".to_string(), first_line: "proxy".to_string() },
            ScannedEntry::Directory { name: "blog".to_string(), root: "/srv/blog".to_string() },
            ScannedEntry::NonUnicode("x\u{FFFD}".to_string()),
            ScannedEntry::Unreadable { name: "locked".to_string(), error: "denied".to_string() },
        ]))
        .unwrap();
    let client = DuwopClient::new(9054, "/state".to_string());
    let status = client.check_database_status(&state);
    assert_eq!(
        status.invalid_configurations,
        vec![("api".to_string(), "missing socket address".to_string())]
    );
    assert_eq!(status.name_errors, vec!["x\u{FFFD}".to_string()]);
    assert_eq!(status.io_errors, vec!["locked: denied".to_string()]);
    assert!(!status.is_db_clean());
    let mut clean = AppState::new("/state");
    clean.load_services(Ok(vec![])).unwrap();
    assert!(client.check_database_status(&clean).is_db_clean());
}

#[test]
fn ca_status_is_none_when_either_file_is_missing() {
    assert_eq!(duwop::client::ca_status(false, true, || Ok(true)), Ok(None));
    assert_eq!(duwop::client::ca_status(true, false, || Ok(true)), Ok(None));
    assert_eq!(duwop::client::ca_status(true, true, || Ok(false)), Ok(Some(false)));
    assert_eq!(duwop::client::ca_status(true, true, || Err("bad".to_string())), Err("bad".to_string()));
}

#[test]
fn default_state_directory() {
    let setup = Setup::new(false, "/home/me");
    assert_eq!(setup.state_dir, "/home/me/.duwop/state");
    assert_eq!(setup.log_dir, "/home/me/.duwop/logs");
}
