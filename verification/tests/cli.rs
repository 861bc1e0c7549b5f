use nexus_core::cli::{default_api_url, default_output, query_path, Client, Config, OutputMode, DEFAULT_API_URL};

#[test]
fn config_output_mode_parses_known_values() {
    assert_eq!(OutputMode::from_config("json"), OutputMode::Json);
    assert_eq!(OutputMode::from_config("table"), OutputMode::Table);
    assert_eq!(OutputMode::from_config("anything"), OutputMode::Table);
}

#[test]
fn default_config_values() {
    let cfg = Config::default();
    assert_eq!(cfg.api_url, DEFAULT_API_URL);
    assert_eq!(cfg.api_url, "http://127.0.0.1:18080");
    assert_eq!(cfg.default_output, "table");
    assert_eq!(cfg.token, None);
    assert_eq!(default_api_url(), DEFAULT_API_URL);
    assert_eq!(default_output(), "table");
}

#[test]
fn output_mode_is_case_sensitive() {
    assert_eq!(OutputMode::from_config("JSON"), OutputMode::Table);
}

#[test]
fn joins_base_url_and_path() {
    let client = Client::new("http://localhost:18080/".into(), None);
    assert_eq!(client.url("/v1/vms"), "http://localhost:18080/v1/vms");
}

#[test]
fn builds_websocket_url() {
    let client = Client::new("http://localhost:18080/".into(), None);
    assert_eq!(client.ws_url("/v1/vms/abc/shell/ws"), "ws://localhost:18080/v1/vms/abc/shell/ws");
}

#[test]
fn websocket_urls_for_other_schemes() {
    let secure = Client::new("https://mgr.example//".into(), Some("t".into()));
    assert_eq!(secure.ws_url("v1/x"), "wss://mgr.example/v1/x");
    assert_eq!(secure.token(), Some("t"));
    let bare = Client::new("mgr:18080".into(), None);
    assert_eq!(bare.ws_url("//v1"), "mgr:18080/v1");
    assert_eq!(bare.token(), None);
}

#[test]
fn builds_query_path() {
    assert_eq!(query_path("/v1/images", &[("kind", Some("root fs".into()))]), "/v1/images?kind=root%20fs");
    assert_eq!(query_path("/v1/images", &[("kind", None)]), "/v1/images");
}

#[test]
fn query_path_joins_several_pairs() {
    assert_eq!(
        query_path("/p", &[("a", None), ("b", Some("x/y~".into())), ("c", Some("é".into()))]),
        "/p?b=x%2Fy~&c=%C3%A9"
    );
}
