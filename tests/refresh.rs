use azure_core::credentials::Secret;
use azure_identity_helpers::devicecode_credentials::{convert_expires_in, DeviceCodeCredential};
use azure_identity_helpers::error::ErrorKind;
use azure_identity_helpers::refresh_token::{
    exchange_body, split, token_endpoint, RefreshTokenError, RefreshTokenResponse,
};

#[test]
fn exchange_body_encodes_fields_in_order() {
    assert_eq!(
        exchange_body("my client", None, "r&t"),
        "grant_type=refresh_token&client_id=my+client&refresh_token=r%26t"
    );
    assert_eq!(
        exchange_body("c", Some("s=1"), "r"),
        "grant_type=refresh_token&client_id=c&refresh_token=r&client_secret=s%3D1"
    );
}

#[test]
fn token_endpoint_for_tenant() {
    assert_eq!(
        token_endpoint("contoso"),
        "https://login.microsoftonline.com/contoso/oauth2/v2.0/token"
    );
}

#[test]
fn split_scopes_on_spaces() {
    assert_eq!(split("a b c"), vec!["a", "b", "c"]);
    assert_eq!(split(""), vec![""]);
    assert_eq!(split("a  b"), vec!["a", "", "b"]);
    assert_eq!(split(" a "), vec!["", "a", ""]);
}

#[test]
fn response_getters() {
    let r = RefreshTokenResponse::new(
        "Bearer".to_string(),
        "x y",
        3600,
        7200,
        Secret::new("access"),
        Secret::new("refresh"),
    );
    assert_eq!(r.token_type(), "Bearer");
    assert_eq!(r.scopes(), &["x".to_string(), "y".to_string()]);
    assert_eq!(r.expires_in(), 3600);
    assert_eq!(r.ext_expires_in(), 7200);
    assert_eq!(r.access_token().secret(), "access");
    assert_eq!(r.refresh_token().secret(), "refresh");
}

fn error_body(suberror: Option<&str>) -> RefreshTokenError {
    RefreshTokenError {
        error: "invalid_grant".to_string(),
        error_description: "expired".to_string(),
        error_codes: vec![70008],
        timestamp: None,
        trace_id: None,
        correlation_id: None,
        suberror: suberror.map(|s| s.to_string()),
        claims: None,
    }
}

#[test]
fn refresh_error_report() {
    assert_eq!(error_body(None).to_string(), "error: invalid_grant\ndescription: expired\n");
    assert_eq!(
        error_body(Some("bad_token")).to_string(),
        "error: invalid_grant\nsuberror: bad_token\ndescription: expired\n"
    );
    let e = error_body(None).to_error();
    assert_eq!(e.kind, ErrorKind::Credential);
}

#[test]
fn expires_in_arithmetic() {
    assert_eq!(convert_expires_in(1000, 3600), Some(4600));
    assert_eq!(convert_expires_in(-10, 5), Some(-5));
    assert_eq!(convert_expires_in(i64::MAX, 0), Some(i64::MAX));
    assert_eq!(convert_expires_in(i64::MAX, 1), None);
    assert_eq!(convert_expires_in(0, u64::MAX), None);
}

#[test]
fn device_code_refresh_tokens_per_scopes() {
    let mut d = DeviceCodeCredential::new("t".to_string(), "c".to_string());
    assert_eq!(d.tenant_id(), "t");
    assert_eq!(d.client_id(), "c");
    let k1 = vec!["a".to_string()];
    let k2 = vec!["b".to_string()];
    assert!(d.take_refresh_token(&k1).is_none());
    d.keep_refresh_token(&k1, Secret::new("r1"));
    d.keep_refresh_token(&k2, Secret::new("r2"));
    d.keep_refresh_token(&k1, Secret::new("r1b"));
    assert_eq!(d.take_refresh_token(&k1).unwrap().secret(), "r1b");
    assert!(d.take_refresh_token(&k1).is_none());
    assert_eq!(d.take_refresh_token(&k2).unwrap().secret(), "r2");
}
