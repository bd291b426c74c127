use httped::auth::bearer_auth;
use httped::problem::{is_problem_response_code, parse_u16, problem_details, requested_status, ApiError};

#[test]
fn rfc9457_contract() {
    let e = bearer_auth(None).unwrap_err();
    let p = problem_details(Some(e.status), Some((e.name, e.brief)), Some("/bearer?source=test".to_string()), "/bearer".to_string());
    assert_eq!(p.problem_type, "about:blank");
    assert_eq!(p.title, "Unauthorized");
    assert_eq!(p.status, 401);
    assert_eq!(p.detail, "Missing authorization header");
    assert_eq!(p.instance, "/bearer?source=test");

    let p = problem_details(None, None, None, "/missing".to_string());
    assert_eq!(p.status, 404);
    assert_eq!(p.title, "Not Found");
    assert_eq!(p.detail, "Not Found");
    assert_eq!(p.instance, "/missing");

    assert_eq!(requested_status(404).unwrap(), 404);
    assert_eq!(requested_status(200).unwrap(), 200);
    for code in ["400", "401", "404", "500"] {
        assert!(is_problem_response_code(code));
    }
    for code in ["200", "302", "default", ""] {
        assert!(!is_problem_response_code(code));
    }
}

#[test]
fn problem_details_preserve_mount_path() {
    let p = problem_details(Some(401), Some(("Unauthorized".to_string(), "x".to_string())), Some("/api/bearer?source=test".to_string()), "/api/bearer".to_string());
    assert_eq!(p.instance, "/api/bearer?source=test");
    let p = problem_details(Some(404), None, None, "/api/status/get/404".to_string());
    assert_eq!(p.instance, "/api/status/get/404");
    let e = requested_status(9999).unwrap_err();
    assert_eq!((e.status, e.name.as_str(), e.brief.as_str()), (400, "Bad Request", "status code must be between 100 and 999"));
    let p = problem_details(Some(e.status), Some((e.name, e.brief)), None, "/api/status/get/9999".to_string());
    assert_eq!(p.status, 400);
    assert_eq!(p.instance, "/api/status/get/9999");
}

#[test]
fn problem_titles_fall_back_to_reason_phrases() {
    let p = problem_details(Some(418), None, None, "/".to_string());
    assert_eq!((p.title.as_str(), p.detail.as_str()), ("I'm a teapot", "I'm a teapot"));
    let p = problem_details(Some(599), None, None, "/".to_string());
    assert_eq!((p.title.as_str(), p.detail.as_str()), ("HTTP Error", "HTTP Error"));
    let p = problem_details(Some(503), None, Some("/a?b".to_string()), "/a".to_string());
    assert_eq!(p.title, "Service Unavailable");
    assert_eq!(p.instance, "/a?b");
}

#[test]
fn status_codes_between_100_and_999_are_echoed() {
    for code in [100u16, 200, 204, 418, 599, 999] {
        assert_eq!(requested_status(code).unwrap(), code);
    }
    for code in [0u16, 99, 1000, u16::MAX] {
        assert_eq!(requested_status(code).unwrap_err().status, 400);
    }
}

#[test]
fn problem_response_codes_are_400_to_599() {
    assert!(is_problem_response_code("+404"));
    assert!(is_problem_response_code("0404"));
    assert!(is_problem_response_code("599"));
    assert!(!is_problem_response_code("600"));
    assert!(!is_problem_response_code("399"));
    assert!(!is_problem_response_code("4xx"));
    assert!(!is_problem_response_code(" 404"));
}

#[test]
fn parse_u16_agrees_with_std() {
    for s in ["0", "7", "+12", "65535", "65536", "99999", "", "+", "-1", "-0", "++1", " 1", "1 ", "00001", "1_0", "٣"] {
        assert_eq!(parse_u16(s), s.parse::<u16>().ok(), "{s:?}");
    }
    for n in [0u16, 9, 10, 255, 1000, 65535] {
        assert_eq!(parse_u16(&httped::text::decimal_string(n as u32)), Some(n));
    }
}

#[test]
fn error_constructors() {
    let e = ApiError::internal_server_error("boom".to_string());
    assert_eq!((e.status, e.name.as_str(), e.brief.as_str()), (500, "Internal Server Error", "boom"));
    let e = ApiError::bad_request("b");
    assert_eq!((e.status, e.name.as_str()), (400, "Bad Request"));
}
