use httped::auth::{basic_auth, bearer_auth, credentials_match, parse_bearer};

#[test]
fn bearer_header_yields_its_token() {
    assert_eq!(parse_bearer("Bearer abc.DEF-123_~+/==").as_deref(), Some("abc.DEF-123_~+/=="));
    assert_eq!(parse_bearer("Bearer \t  token").as_deref(), Some("token"));
    assert_eq!(parse_bearer("Bearer\u{3000}x").as_deref(), Some("x"));
    assert_eq!(parse_bearer("Bearer\u{a0}a=").as_deref(), Some("a="));
}

#[test]
fn malformed_bearer_headers_are_refused() {
    for h in [
        "",
        "Bearer",
        "Bearer ",
        "Bearertoken",
        "bearer token",
        "Basic dXNlcjpwYXNz",
        "Bearer ab=c",
        "Bearer =abc",
        "Bearer abc def",
        "Bearer abc ",
        "Bearer abc\n",
        "Bearer ab*c",
        " Bearer abc",
    ] {
        assert_eq!(parse_bearer(h), None, "{h:?}");
    }
}

#[test]
fn bearer_endpoint_answers() {
    let e = bearer_auth(None).unwrap_err();
    assert_eq!((e.status, e.name.as_str(), e.brief.as_str()), (401, "Unauthorized", "Missing authorization header"));
    let e = bearer_auth(Some("Token abc".to_string())).unwrap_err();
    assert_eq!((e.status, e.name.as_str(), e.brief.as_str()), (400, "Bad Request", "Invalid authorization header"));
    let ok = bearer_auth(Some("Bearer s3cr3t".to_string())).unwrap();
    assert!(ok.authenticated);
    assert_eq!(ok.token, "s3cr3t");
}

#[test]
fn bearer_round_trip_law_example() {
    for token in ["a", "Zz09-._~+/", "abc===", "x="] {
        for space in [" ", "\t", "  \u{2003}"] {
            let header = format!("Bearer{space}{token}");
            assert_eq!(parse_bearer(&header).as_deref(), Some(token));
        }
    }
}

#[test]
fn basic_auth_checks_the_path_credentials() {
    let u = Some("user".to_string());
    let p = Some("passwd".to_string());
    assert!(credentials_match(u.clone(), p.clone(), "user", "passwd"));
    assert!(!credentials_match(u.clone(), p.clone(), "user", "wrong"));
    assert!(!credentials_match(u.clone(), p.clone(), "other", "passwd"));
    assert!(!credentials_match(None, p.clone(), "user", "passwd"));
    assert!(!credentials_match(u, None, "user", "passwd"));
    let r = basic_auth("user".to_string());
    assert!(r.authenticated);
    assert_eq!(r.user, "user");
}
