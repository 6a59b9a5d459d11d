use api_proxy::config::FieldType;
use api_proxy::errors::Error;

#[test]
fn status_codes_follow_the_error_kind() {
    assert_eq!(Error::PayloadLimit.status_code(), 413);
    assert_eq!(Error::FieldNotObject("a".into()).status_code(), 400);
    assert_eq!(Error::FieldTypeIncorrect("a".into(), FieldType::Bool).status_code(), 400);
    assert_eq!(Error::InvalidMethod("GET".into(), "POST".into()).status_code(), 400);
    assert_eq!(Error::InvalidContentType("a".into(), "b".into()).status_code(), 400);
    assert_eq!(Error::Json("bad".into()).status_code(), 400);
    assert_eq!(Error::ToStr.status_code(), 400);
    assert_eq!(Error::ParseUtf8("bad".into()).status_code(), 502);
    assert_eq!(Error::IO("disk".into()).status_code(), 500);
    assert_eq!(Error::Unknown.status_code(), 500);
    assert_eq!(Error::NotSupported.status_code(), 500);
}
