use duwop::management::{Action, LogLevel, Request, Response, Server};

fn parse_ok(input: &str) -> Request {
    match Request::parse(input) {
        Ok(r) => r,
        Err(e) => panic!("parse of {:?} failed: {}", input, e),
    }
}

fn parse_err(input: &str) -> String {
    match Request::parse(input) {
        Ok(_) => panic!("parse of {:?} should fail", input),
        Err(e) => e,
    }
}

#[test]
fn parse_reload() {
    assert!(matches!(parse_ok("Reload"), Request::ReloadState));
}

#[test]
fn parse_reset_log() {
    assert!(matches!(parse_ok("Log reset"), Request::ResetLogLevel));
}

#[test]
fn parse_debug_log_level() {
    assert!(matches!(parse_ok("Log debug"), Request::SetLogLevel(LogLevel::DebugLevel)));
}

#[test]
fn parse_trace_log_level() {
    assert!(matches!(parse_ok("Log trace"), Request::SetLogLevel(LogLevel::TraceLevel)));
}

#[test]
fn parse_custom_log_level() {
    match parse_ok("Log custom debug, duwop=trace") {
        Request::SetLogLevel(LogLevel::CustomLevel(v)) => assert_eq!(v, "debug, duwop=trace"),
        _ => panic!("expected a custom level"),
    }
}

#[test]
fn parse_service_status() {
    assert!(matches!(parse_ok("Status"), Request::ServerStatus));
}

#[test]
fn parse_reload_ssl() {
    assert!(matches!(parse_ok("ReloadSsl"), Request::ReloadSsl));
}

#[test]
fn parse_reload_with_with_argument() {
    assert!(parse_err("Reload more").contains("arguments"));
}

#[test]
fn parse_invalid_log_level_command() {
    assert!(parse_err("Log invalid").contains("invalid log command"));
}

#[test]
fn parse_log_without_command() {
    assert!(parse_err("Log").contains("Log requires command"));
}

#[test]
fn parse_log_custom_without_value() {
    assert!(parse_err("Log custom").contains("custom log level requires value"));
}

#[test]
fn parse_invalid_input() {
    assert!(parse_err("UNDEFINED").contains("invalid"));
}

#[test]
fn parse_empty_request() {
    assert!(parse_err("").contains("invalid"));
}

#[test]
fn serialize_reload_state() {
    assert_eq!(Request::ReloadState.serialize(), "Reload");
}

#[test]
fn serialize_reset_log() {
    assert_eq!(Request::ResetLogLevel.serialize(), "Log reset");
}

#[test]
fn serialize_debug_log() {
    assert_eq!(Request::SetLogLevel(LogLevel::DebugLevel).serialize(), "Log debug");
}

#[test]
fn serialize_trace_log() {
    assert_eq!(Request::SetLogLevel(LogLevel::TraceLevel).serialize(), "Log trace");
}

#[test]
fn serialize_custom_log() {
    let r = Request::SetLogLevel(LogLevel::CustomLevel("info, duwop:trace".to_string()));
    assert_eq!(r.serialize(), "Log custom info, duwop:trace");
}

#[test]
fn serialize_server_status() {
    assert_eq!(Request::ServerStatus.serialize(), "Status");
}

#[test]
fn serialize_reload_ssl() {
    assert_eq!(Request::ReloadSsl.serialize(), "ReloadSsl");
}

#[test]
fn request_lines_read_back() {
    let custom = Request::SetLogLevel(LogLevel::CustomLevel("a b  c".to_string()));
    match parse_ok(&custom.serialize()) {
        Request::SetLogLevel(LogLevel::CustomLevel(v)) => assert_eq!(v, "a b  c"),
        _ => panic!("custom level did not read back"),
    }
    assert!(matches!(parse_ok(&Request::ReloadSsl.serialize()), Request::ReloadSsl));
}

#[test]
fn parse_done() {
    assert!(matches!(Response::parse("OK"), Ok(Response::Done)));
}

#[test]
fn parse_ok_with_message() {
    match Response::parse("OK: a message") {
        Ok(Response::Message(m)) => assert_eq!(m, "a message"),
        _ => panic!("expected a message"),
    }
}

#[test]
fn parse_empty_response() {
    match Response::parse("") {
        Err(e) => assert!(e.contains("invalid response")),
        Ok(_) => panic!("response is not an error"),
    }
}

#[test]
fn parse_almost_ok_response() {
    match Response::parse("OK-") {
        Err(e) => assert!(e.contains("invalid response")),
        Ok(_) => panic!("response is not an error"),
    }
}

#[test]
fn parse_ok_without_message() {
    match Response::parse("OK:") {
        Err(e) => assert!(e.contains("OK: without message")),
        Ok(_) => panic!("response is not an error"),
    }
}

#[test]
fn parse_done_with_line_break() {
    assert!(matches!(Response::parse("OK\n"), Ok(Response::Done)));
}

#[test]
fn parse_error_response() {
    match Response::parse("ERROR it broke") {
        Ok(Response::Error(m)) => assert_eq!(m, "it broke"),
        _ => panic!("expected an error response"),
    }
}

#[test]
fn response_serialization() {
    assert_eq!(Response::Done.serialize(), "OK");
    assert_eq!(Response::Message("hi".to_string()).serialize(), "OK: hi");
    assert_eq!(Response::Error("bad".to_string()).serialize(), "ERROR bad");
}

#[test]
fn session_reload_answers_ok() {
    let server = Server::new(9054, "duwop=info".to_string());
    let action = server.decide("Reload");
    assert!(matches!(action, Action::Reload));
    let response = server.complete(action, Ok(()));
    assert_eq!(Server::response_line(&response), "OK\n");
}

#[test]
fn session_failed_reload_answers_error() {
    let server = Server::new(9054, "duwop=info".to_string());
    let response = server.complete(Action::Reload, Err("no such directory".to_string()));
    assert_eq!(Server::response_line(&response), "ERROR error reloading: no such directory\n");
}

#[test]
fn session_reload_ssl_answers_message() {
    let server = Server::new(9054, "duwop=info".to_string());
    let action = server.decide("ReloadSsl");
    assert!(matches!(action, Action::NotifySsl));
    let response = server.complete(action, Ok(()));
    assert_eq!(
        Server::response_line(&response),
        "OK: Ssl replacement initiated. Please check.\n"
    );
}

#[test]
fn session_log_commands_pick_specifications() {
    let server = Server::new(9054, "duwop=info".to_string());
    match server.decide("Log debug") {
        Action::SetLogSpec { text, .. } => assert_eq!(text, "duwop=debug"),
        _ => panic!("expected a log specification"),
    }
    match server.decide("Log trace") {
        Action::SetLogSpec { text, .. } => assert_eq!(text, "duwop=trace"),
        _ => panic!("expected a log specification"),
    }
    match server.decide("Log reset") {
        Action::SetLogSpec { text, .. } => assert_eq!(text, "duwop=info"),
        _ => panic!("expected a log specification"),
    }
    match server.decide("Log custom hyper=warn") {
        Action::SetLogSpec { text, .. } => assert_eq!(text, "hyper=warn"),
        _ => panic!("expected a log specification"),
    }
    let applied = server.decide("Log debug");
    assert_eq!(server.complete(applied, Ok(())).serialize(), "OK");
}

#[test]
fn session_refuses_malformed_log_specification() {
    let server = Server::new(9054, "duwop=info".to_string());
    let action = server.decide("Log custom a=b=c");
    match &action {
        Action::Reply(Response::Error(m)) => assert!(m.starts_with("error setting log level: ")),
        _ => panic!("expected an error reply"),
    }
    let line = Server::response_line(&server.complete(action, Ok(())));
    assert!(line.starts_with("ERROR error setting log level: "));
    assert!(line.ends_with('\n'));
}

#[test]
fn session_status_and_errors() {
    let server = Server::new(9054, "duwop=info".to_string());
    let status = server.decide("Status");
    assert_eq!(Server::response_line(&server.complete(status, Ok(()))), "OK\n");
    let unknown = server.decide("Frobnicate");
    assert_eq!(
        Server::response_line(&server.complete(unknown, Ok(()))),
        "ERROR invalid command: Frobnicate\n"
    );
}

#[test]
fn trimming_follows_unicode_whitespace() {
    assert!(matches!(Response::parse("\u{3000}OK\u{a0}"), Ok(Response::Done)));
    assert!(matches!(Response::parse("OK\r\n"), Ok(Response::Done)));
    assert!(Response::parse("xOK").is_err());
}
