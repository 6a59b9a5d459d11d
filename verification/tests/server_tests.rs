use api_proxy::config::{ApiConfig, ServerConfig};
use api_proxy::server::{HttpsPlan, RequestAction, Server};

#[test]
fn routes_include_the_tail_when_asked() {
    let mut api = ApiConfig { path: "/api/".into(), ..Default::default() };
    assert_eq!(Server::route_path(&api), "/api/");
    api.include_tail = true;
    assert_eq!(Server::route_path(&api), "/api/{tail:.*}");
}

#[test]
fn redirect_to_https_when_enabled() {
    let mut server = ServerConfig::default();
    let mut api = ApiConfig::default();
    assert_eq!(Server::handle_request(&server, &api, false, Some("h"), "/x"), RequestAction::Forward);
    server.redirect_http_to_https = true;
    assert_eq!(
        Server::handle_request(&server, &api, false, Some("h:8080"), "/x?y=1"),
        RequestAction::Redirect("https://h:8080/x?y=1".into())
    );
    assert_eq!(Server::handle_request(&server, &api, true, Some("h"), "/x"), RequestAction::Forward);
    api.redirect_http_to_https = Some(false);
    assert_eq!(Server::handle_request(&server, &api, false, Some("h"), "/x"), RequestAction::Forward);
    server.redirect_http_to_https = false;
    api.redirect_http_to_https = Some(true);
    assert!(Server::redirect_enabled(&server, &api));
    assert_eq!(Server::redirect_to_https(None, "/a"), "https:///a");
}

#[test]
fn https_needs_both_files() {
    let mut cfg = ServerConfig::default();
    assert_eq!(Server::new(cfg.clone()).https_plan(), HttpsPlan::Disabled);
    cfg.https = true;
    assert_eq!(Server::new(cfg.clone()).https_plan(), HttpsPlan::MissingCertFile);
    cfg.cert_file = Some("c.pem".into());
    assert_eq!(Server::new(cfg.clone()).https_plan(), HttpsPlan::MissingKeyFile);
    cfg.key_file = Some("k.pem".into());
    assert_eq!(
        Server::new(cfg.clone()).https_plan(),
        HttpsPlan::Enabled { cert_file: "c.pem".into(), key_file: "k.pem".into() }
    );
    assert_eq!(Server::new(cfg).config().cert_file.as_deref(), Some("c.pem"));
}
