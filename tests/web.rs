use duwop::reverse_proxy::{bad_gateway_message, forwarded_headers, response_headers, upstream_uri, HttpVersion};
use duwop::state::{AppState, ScannedEntry};
use duwop::static_files::{candidate_path, file_path_mime, local_path_for_request};
use duwop::web::{dispatch, extract_host, Dispatch};

fn construct_state(entries: Vec<ScannedEntry>) -> AppState {
    let mut state = AppState::new("/state");
    state.load_services(Ok(entries)).unwrap();
    state
}

fn static_key() -> AppState {
    construct_state(vec![ScannedEntry::Directory { name: "key".to_string(), root: "/some/path".to_string() }])
}

#[test]
fn extract_host_extracts_the_host_without_domain() {
    assert_eq!(extract_host("example.test").unwrap(), "example");
}

#[test]
fn extract_host_returns_error_if_no_host_header_is_found() {
    let state = static_key();
    assert!(matches!(dispatch(&state, None), Dispatch::BadHost(_)), "no host should return error");
}

#[test]
fn extract_host_returns_error_if_domain_is_not_valid() {
    assert!(extract_host("example.com").is_err(), "invalid domain should return error");
}

#[test]
fn extract_host_lowercases_and_drops_port() {
    assert_eq!(extract_host("Blog.Test:8080").unwrap(), "blog");
}

#[test]
fn request_without_host_should_return_500_error() {
    let state = static_key();
    assert!(matches!(dispatch(&state, None), Dispatch::BadHost(_)));
}

#[test]
fn request_with_invalid_domain_should_return_500() {
    let state = static_key();
    match dispatch(&state, Some("example.com")) {
        Dispatch::BadHost(m) => assert_eq!(m, "invalid host domain: example.com"),
        _ => panic!("expected a 500"),
    }
}

#[test]
fn request_with_undefined_host_should_return_404() {
    let state = static_key();
    assert!(matches!(dispatch(&state, Some("undefined.test")), Dispatch::NotFound));
}

#[test]
fn request_for_invalid_config_should_return_messaged_error() {
    let state = construct_state(vec![ScannedEntry::File {
        name: "key".to_string(),
        first_line: "invalid config".to_string(),
    }]);
    match dispatch(&state, Some("key.test")) {
        Dispatch::InvalidConfig(m) => assert_eq!(m, "invalid directive: 'invalid config'"),
        _ => panic!("expected a 500 with a message"),
    }
}

#[test]
fn registered_names_dispatch_with_or_without_port() {
    let state = construct_state(vec![
        ScannedEntry::Directory { name: "blog".to_string(), root: "/srv/blog".to_string() },
        ScannedEntry::File { name: "api".to_string(), first_line: "proxy:127.0.0.1:3000".to_string() },
    ]);
    match dispatch(&state, Some("blog.test")) {
        Dispatch::Static(root) => assert_eq!(root, "/srv/blog"),
        _ => panic!("expected static files"),
    }
    assert!(matches!(dispatch(&state, Some("api.test:80")), Dispatch::Proxy(3000)));
}

#[test]
fn static_blog_scenario() {
    let state = construct_state(vec![ScannedEntry::Directory { name: "blog".to_string(), root: "/srv/blog".to_string() }]);
    let root = match dispatch(&state, Some("blog.test")) {
        Dispatch::Static(root) => root,
        _ => panic!("expected static files"),
    };
    let candidate = candidate_path("/", &root).unwrap();
    assert_eq!(candidate, "/srv/blog/index.html");
    let local = local_path_for_request(&root, Some(&candidate)).unwrap();
    assert_eq!(file_path_mime(&local), "text/html");
}

#[test]
fn reload_makes_new_directory_reachable() {
    let mut state = AppState::new("/state");
    state.load_services(Ok(vec![])).unwrap();
    assert!(matches!(dispatch(&state, Some("c.test")), Dispatch::NotFound));
    state.load_services(Ok(vec![ScannedEntry::Directory { name: "c".to_string(), root: "/c".to_string() }])).unwrap();
    assert!(matches!(dispatch(&state, Some("c.test")), Dispatch::Static(_)));
}

#[test]
fn local_path_for_request_joins_root_with_path() {
    assert_eq!(candidate_path("/Cargo.toml", "/work").unwrap(), "/work/Cargo.toml");
    assert_eq!(local_path_for_request("/work", Some("/work/Cargo.toml")).unwrap(), "/work/Cargo.toml");
}

#[test]
fn local_path_for_request_does_not_return_non_existing_paths() {
    assert_eq!(candidate_path("/index.html", "/no/such/directory").unwrap(), "/no/such/directory/index.html");
    assert!(local_path_for_request("/no/such/directory", None).is_none());
}

#[test]
fn local_path_for_request_does_not_accept_relative_uri_paths() {
    assert!(candidate_path("Cargo.toml", "/work").is_none());
}

#[test]
fn local_path_for_request_normalizes_paths() {
    assert_eq!(candidate_path("/src/../Cargo.toml", "/work").unwrap(), "/work/src/../Cargo.toml");
    assert_eq!(local_path_for_request("/work", Some("/work/Cargo.toml")).unwrap(), "/work/Cargo.toml");
}

#[test]
fn local_path_for_request_does_not_allow_to_go_above_root() {
    assert_eq!(candidate_path("/web/../../Cargo.toml", "/work/src").unwrap(), "/work/src/web/../../Cargo.toml");
    assert!(local_path_for_request("/work/src", Some("/work/Cargo.toml")).is_none());
    assert!(local_path_for_request("/work/src", Some("/work/srcother/x")).is_none());
}

#[test]
fn query_strings_are_dropped_and_directories_get_index() {
    assert_eq!(candidate_path("/docs/?page=2", "/w/").unwrap(), "/w/docs/index.html");
    assert_eq!(candidate_path("/a.css?v=1", "/w").unwrap(), "/w/a.css");
}

#[test]
fn content_types_follow_extensions() {
    assert_eq!(file_path_mime("/w/index.html"), "text/html");
    assert_eq!(file_path_mime("/w/a.css"), "text/css");
    assert_eq!(file_path_mime("/w/a.js"), "text/javascript");
    assert_eq!(file_path_mime("/w/a.jpg"), "image/jpeg");
    assert_eq!(file_path_mime("/w/a.png"), "image/png");
    assert_eq!(file_path_mime("/w/a.svg"), "image/svg+xml");
    assert_eq!(file_path_mime("/w/a.wasm"), "application/wasm");
    assert_eq!(file_path_mime("/w/a.txt"), "text/plain");
    assert_eq!(file_path_mime("/w/.bashrc"), "text/plain");
    assert_eq!(file_path_mime("/w.d/Makefile"), "text/plain");
}

#[test]
fn proxy_rewrites_uri_and_headers() {
    assert_eq!(upstream_uri(3000, "/x", Some("q=1")), "http://127.0.0.1:3000/x?q=1");
    assert_eq!(upstream_uri(8080, "/", None), "http://127.0.0.1:8080/");
    let fwd = forwarded_headers("127.0.0.1", 51234);
    assert_eq!(fwd[0].name, "x-forwarded-for");
    assert_eq!(fwd[0].value, "127.0.0.1");
    assert_eq!(fwd[1].name, "x-forwarded-port");
    assert_eq!(fwd[1].value, "51234");
    let kept = response_headers(HttpVersion::Http11, true);
    assert_eq!(kept.len(), 1);
    assert_eq!(kept[0].name, "via");
    assert_eq!(kept[0].value, "1.1 duwop-proxy");
    let added = response_headers(HttpVersion::Http10, false);
    assert_eq!(added.len(), 2);
    assert_eq!(added[0].value, "1.0 duwop-proxy");
    assert_eq!(added[1].name, "server");
    assert_eq!(added[1].value, "duwop");
    assert_eq!(bad_gateway_message(), "Something went wrong, please try again later");
}

#[test]
fn host_header_bytes_must_be_visible_ascii() {
    let state = static_key();
    assert!(matches!(duwop::web::dispatch_header(&state, Some(b"key.test")), Dispatch::Static(_)));
    assert!(matches!(duwop::web::dispatch_header(&state, Some(b"key.test\xff")), Dispatch::BadHost(_)));
    assert!(matches!(duwop::web::dispatch_header(&state, None), Dispatch::BadHost(_)));
    assert!(matches!(duwop::web::dispatch_header(&state, Some(b"KEY.Test:8080")), Dispatch::Static(_)));
}
