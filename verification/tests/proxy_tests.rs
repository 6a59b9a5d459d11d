use api_proxy::config::{ApiConfig, Mode, Rule, FieldType};
use api_proxy::errors::Error;
use api_proxy::json::{JsonNumber, JsonValue, NumberRepr};
use api_proxy::proxy::{ForwardRoute, PayloadLimiter, Proxy, RelayMessage, WsHeader};

fn api() -> ApiConfig {
    ApiConfig {
        path: "/api/".into(),
        target: "https://backend.internal".into(),
        ..Default::default()
    }
}

fn integer(v: u64) -> JsonValue {
    JsonValue::Number(JsonNumber { repr: NumberRepr::PosInt(v), order: (v as f64).to_bits() as i64 })
}

fn obj(members: Vec<(&str, JsonValue)>) -> JsonValue {
    JsonValue::Object(members.into_iter().map(|(k, v)| (k.to_string(), v)).collect())
}

#[test]
fn new_keeps_config() {
    let p = Proxy::new(api());
    assert_eq!(p.config().path, "/api/");
    assert_eq!(p.config().target, "https://backend.internal");
}

#[test]
fn websocket_detection() {
    assert!(Proxy::is_websocket(Some("websocket")));
    assert!(Proxy::is_websocket(Some("WebSocket")));
    assert!(!Proxy::is_websocket(Some("h2c")));
    assert!(!Proxy::is_websocket(None));
}

#[test]
fn routes_by_mode() {
    let mut a = api();
    assert_eq!(Proxy::new(a.clone()).forward_route(false), ForwardRoute::Raw);
    assert_eq!(Proxy::new(a.clone()).forward_route(true), ForwardRoute::WebSocket);
    a.mode = Mode::Rule;
    assert_eq!(Proxy::new(a).forward_route(false), ForwardRoute::Rule);
}

#[test]
fn request_checks() {
    let mut a = api();
    a.payload_limit = Some(10);
    a.method = Some("post".into());
    a.content_type = Some("application/json".into());
    let p = Proxy::new(a);
    assert!(p.check_request(9, "POST", Some(b"application/json")).is_ok());
    assert!(p.check_request(9, "POST", None).is_ok());
    // a body of exactly the limit is allowed; one byte more is not
    assert!(p.check_request(10, "POST", None).is_ok());
    assert!(matches!(p.check_request(11, "POST", None), Err(Error::PayloadLimit)));
    match p.check_request(1, "GET", None) {
        Err(Error::InvalidMethod(got, want)) => {
            assert_eq!(got, "GET");
            assert_eq!(want, "post");
        }
        other => panic!("unexpected {:?}", other),
    }
    match p.check_request(1, "POST", Some(b"text/plain")) {
        Err(Error::InvalidContentType(got, want)) => {
            assert_eq!(got, "text/plain");
            assert_eq!(want, "application/json");
        }
        other => panic!("unexpected {:?}", other),
    }
    assert!(matches!(p.check_request(1, "POST", Some(b"a\x01b")), Err(Error::ToStr)));
    assert!(Proxy::new(api()).check_request(usize::MAX, "ANY", Some(b"\xff")).is_ok());
}

#[test]
fn payload_rules() {
    let mut a = api();
    a.mode = Mode::Rule;
    a.rules = vec![
        Rule {
            field: "sensor.readings[0].value".into(),
            field_type: Some(FieldType::Number),
            ..Default::default()
        },
        Rule { field: "note".into(), optional: true, ..Default::default() },
    ];
    let p = Proxy::new(a);
    let ok = obj(vec![(
        "sensor",
        obj(vec![("readings", JsonValue::Array(vec![obj(vec![("value", integer(3))])]))]),
    )]);
    assert!(p.check_payload(&ok).is_ok());
    let missing = obj(vec![("sensor", obj(vec![]))]);
    match p.check_payload(&missing) {
        Err(Error::FieldNotObject(f)) => assert_eq!(f, "sensor.readings[0].value"),
        other => panic!("unexpected {:?}", other),
    }
    let wrong = obj(vec![(
        "sensor",
        obj(vec![("readings", JsonValue::Array(vec![obj(vec![("value", JsonValue::Null)])]))]),
    )]);
    assert!(matches!(p.check_payload(&wrong), Err(Error::FieldTypeIncorrect(..))));
    // a payload that is not an object is checked as a whole
    assert!(matches!(p.check_payload(&JsonValue::Bool(true)), Err(Error::FieldTypeIncorrect(..))));
}

#[test]
fn target_url() {
    let p = Proxy::new(api());
    assert_eq!(p.build_target_url("/api/users", Some("a=1")), "https://backend.internal/users?a=1");
    assert_eq!(p.build_target_url("/api/api/users", None), "https://backend.internal/api/users");
    assert_eq!(p.build_target_url("/other/x", None), "https://backend.internal/other/x");
    let mut keep = api();
    keep.keep_proxy_path = true;
    keep.target_path = Some("v2/".into());
    let p = Proxy::new(keep);
    assert_eq!(p.build_target_url("/api/users", None), "https://backend.internal/v2/api/users");
    let mut pre = api();
    pre.path_prefix = Some("base".into());
    let p = Proxy::new(pre);
    assert_eq!(p.build_target_url("/api/é x", Some("")), "https://backend.internal/base%C3%A9 x?");
    assert_eq!(p.build_target_url("/api/\u{7f}\n", None), "https://backend.internal/base%7F%0A");
}

#[test]
fn forwarded_headers_and_cookies() {
    let mut a = api();
    a.inject_headers = vec![("x-api-key".into(), "secret".into())];
    a.inject_cookies = vec![("session".into(), "abc".into())];
    let p = Proxy::new(a.clone());
    let incoming = vec![
        ("host".to_string(), b"proxy.local".to_vec()),
        ("accept".to_string(), b"*/*".to_vec()),
    ];
    let out = p.forward_headers(&incoming, "backend.internal");
    assert_eq!(
        out,
        vec![
            ("host".to_string(), b"backend.internal".to_vec()),
            ("accept".to_string(), b"*/*".to_vec()),
            ("x-api-key".to_string(), b"secret".to_vec()),
        ]
    );
    let cookies = p.forward_cookies(&vec![("id".to_string(), "1".to_string())]);
    assert_eq!(cookies, vec![("id".to_string(), "1".to_string()), ("session".to_string(), "abc".to_string())]);
    a.no_forward_headers = true;
    a.no_forward_cookies = true;
    let p = Proxy::new(a);
    assert_eq!(p.forward_headers(&incoming, "b"), vec![("x-api-key".to_string(), b"secret".to_vec())]);
    assert_eq!(p.forward_cookies(&vec![("id".to_string(), "1".to_string())]), vec![("session".to_string(), "abc".to_string())]);
}

#[test]
fn response_handling() {
    let mut a = api();
    let p = Proxy::new(a.clone());
    assert!(!p.response_header_kept("content-encoding"));
    assert!(p.response_header_kept("content-type"));
    assert_eq!(p.response_body_limit(), 2 * 1024 * 1024);
    assert!(Proxy::is_html(Some("text/html; charset=utf-8")));
    assert!(!Proxy::is_html(Some("application/json")));
    assert!(!Proxy::is_html(None));
    assert_eq!(p.response_body(true, b"<a href=\"/x\">").unwrap(), b"<a href=\"/x\">".to_vec());
    a.no_decompress = true;
    a.payload_limit = Some(5);
    a.replace_html_links = true;
    a.target = "http://h/".into();
    let p = Proxy::new(a);
    assert!(p.response_header_kept("content-encoding"));
    assert_eq!(p.response_body_limit(), 5);
    let body = p.response_body(true, b"<a href=\"/x\">").unwrap();
    assert_eq!(String::from_utf8(body).unwrap(), "<a href=\"http://h/x\">");
    // a response that is not HTML is passed on unchanged
    assert_eq!(p.response_body(false, b"<a href=\"/x\">").unwrap(), b"<a href=\"/x\">".to_vec());
    assert!(matches!(p.response_body(true, b"\xff\xfe"), Err(Error::ParseUtf8(_))));
    assert_eq!(p.response_body(false, b"\xff").unwrap(), vec![0xff]);
}

#[test]
fn websocket_headers() {
    assert_eq!(Proxy::ws_header("host"), WsHeader::Host);
    assert_eq!(Proxy::ws_header("upgrade"), WsHeader::Skip);
    assert_eq!(Proxy::ws_header("sec-websocket-key"), WsHeader::Skip);
    assert_eq!(Proxy::ws_header("x-real-127.0.0.1"), WsHeader::Renamed("x-real-192.168.1.124".into()));
    assert_eq!(Proxy::ws_header("accept"), WsHeader::Keep);
}

#[test]
fn websocket_relay_decisions() {
    assert!(Proxy::relay_continues(RelayMessage::Text, false));
    assert!(!Proxy::relay_continues(RelayMessage::Binary, true));
    assert!(Proxy::relay_continues(RelayMessage::Ping, true));
    assert!(!Proxy::relay_continues(RelayMessage::Close, false));
    assert!(Proxy::relay_continues(RelayMessage::Other, false));
}

#[test]
fn payload_limiter_never_exceeds_limit() {
    let mut l = PayloadLimiter::new(10);
    assert!(l.accept(4));
    assert!(l.accept(6));
    assert_eq!(l.received(), 10);
    assert!(!l.accept(1));
    assert_eq!(l.received(), 10);
    let mut big = PayloadLimiter::new(3);
    assert!(!big.accept(usize::MAX));
    assert_eq!(big.received(), 0);
}

#[test]
fn injected_names_must_be_unique() {
    let mut a = api();
    assert!(a.injections_unique());
    a.inject_headers = vec![("x-a".into(), "1".into()), ("x-b".into(), "2".into())];
    assert!(a.injections_unique());
    a.inject_headers.push(("x-a".into(), "3".into()));
    assert!(!a.injections_unique());
    a.inject_headers.pop();
    a.inject_cookies = vec![("s".into(), "1".into()), ("s".into(), "2".into())];
    assert!(!a.injections_unique());
}
