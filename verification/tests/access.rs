use osm_world::access::{
    allowed_cors_origins, bearer_token_of, client_rate_limit_key, lowered_trimmed,
    request_authorized, trust_proxy_enabled,
};

#[test]
fn no_configured_token_allows_every_request() {
    assert!(request_authorized(None, None));
    assert!(request_authorized(None, Some("Bearer anything")));
}

#[test]
fn configured_token_requires_matching_bearer_header() {
    assert!(request_authorized(Some("s3cret"), Some("Bearer s3cret")));
    assert!(!request_authorized(Some("s3cret"), Some("Bearer s3cre")));
    assert!(!request_authorized(Some("s3cret"), Some("Bearer s3cret ")));
    assert!(!request_authorized(Some("s3cret"), Some("bearer s3cret")));
    assert!(!request_authorized(Some("s3cret"), Some("s3cret")));
    assert!(!request_authorized(Some("s3cret"), None));
}

#[test]
fn bearer_token_is_the_text_after_the_scheme() {
    assert_eq!(bearer_token_of("Bearer abc"), Some("abc".to_string()));
    assert_eq!(bearer_token_of("Bearer "), Some(String::new()));
    assert_eq!(bearer_token_of("Bearer"), None);
    assert_eq!(bearer_token_of("Basic abc"), None);
}

#[test]
fn trust_proxy_switch_accepts_the_usual_spellings() {
    for v in ["1", "true", "YES", " On ", "TrUe\n"] {
        assert!(trust_proxy_enabled(Some(v)), "{v:?}");
    }
    for v in ["", "0", "false", "no", "y", "enabled"] {
        assert!(!trust_proxy_enabled(Some(v)), "{v:?}");
    }
    assert!(!trust_proxy_enabled(None));
    assert_eq!(lowered_trimmed("  MiXeD Case "), "mixed case");
}

#[test]
fn rate_limit_key_prefers_trusted_forwarded_address() {
    assert_eq!(
        client_rate_limit_key(true, Some(" 203.0.113.7 , 10.0.0.1"), Some("10.0.0.1")),
        "203.0.113.7"
    );
    assert_eq!(
        client_rate_limit_key(false, Some("203.0.113.7"), Some("10.0.0.1")),
        "10.0.0.1"
    );
    assert_eq!(
        client_rate_limit_key(true, Some("  , 203.0.113.7"), Some("10.0.0.1")),
        "10.0.0.1"
    );
    assert_eq!(client_rate_limit_key(true, None, Some("::1")), "::1");
    assert_eq!(client_rate_limit_key(true, None, None), "unknown");
    assert_eq!(client_rate_limit_key(false, Some("x"), None), "unknown");
}

#[test]
fn cors_origins_default_to_local_explorer() {
    let defaults = vec![
        "http://localhost:8032".to_string(),
        "http://127.0.0.1:8032".to_string(),
    ];
    assert_eq!(allowed_cors_origins(None), defaults);
    assert_eq!(allowed_cors_origins(Some("")), defaults);
    assert_eq!(allowed_cors_origins(Some(" , ,")), defaults);
}

#[test]
fn cors_origins_are_split_trimmed_and_blank_free() {
    assert_eq!(
        allowed_cors_origins(Some(" https://a.example ,,https://b.example:8443 ")),
        vec![
            "https://a.example".to_string(),
            "https://b.example:8443".to_string()
        ]
    );
    assert_eq!(
        allowed_cors_origins(Some("https://only.example")),
        vec!["https://only.example".to_string()]
    );
}
