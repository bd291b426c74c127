use httped::redirect::RedirectPlan;
use httped::redirect::{absolute_redirect, into_redirect, redirect_status, redirect_to_plan, relative_redirect};

#[test]
fn redirects_preserve_mount_and_semantics() {
    for abs in [
        "https://localhost:8443/api/absolute-redirect/2",
        "https://localhost:8443/api/absolute-redirect/2?foo=bar",
    ] {
        let p = absolute_redirect(abs, 2).unwrap();
        assert_eq!(p.status, 302);
        assert_eq!(p.location, "https://localhost:8443/api/absolute-redirect/1");
    }
    let p = relative_redirect("/api/relative-redirect/1", 1).unwrap();
    assert_eq!(p.status, 302);
    assert_eq!(p.location, "/api/get");
    let p = absolute_redirect("https://localhost:8443/api/absolute-redirect/1?x=1", 1).unwrap();
    assert_eq!(p.location, "https://localhost:8443/api/get");
    let p = relative_redirect("/relative-redirect/12", 12).unwrap();
    assert_eq!(p.location, "/relative-redirect/11");
}

#[test]
fn redirect_chain_counts_down_to_get() {
    let mut path = String::from("/mnt/relative-redirect/5");
    for n in (1..=5u8).rev() {
        path = relative_redirect(&path, n).unwrap().location;
    }
    assert_eq!(path, "/mnt/get");
}

#[test]
fn redirect_step_zero_is_refused() {
    for e in [absolute_redirect("http://h/absolute-redirect/0", 0).unwrap_err(), relative_redirect("/relative-redirect/0", 0).unwrap_err()] {
        assert_eq!((e.status, e.name.as_str(), e.brief.as_str()), (400, "Bad Request", "n must be greater than 0"));
    }
}

#[test]
fn redirect_outside_its_route_loses_the_base() {
    assert_eq!(absolute_redirect("http://h/elsewhere", 3).unwrap().location, "/absolute-redirect/2");
    assert_eq!(relative_redirect("/api/relative-redirect/02", 2).unwrap().location, "/relative-redirect/1");
}

#[test]
fn redirect_to_get_with_status_code() {
    for code in 300..400u16 {
        let plan = redirect_to_plan("http://localhost/겟".to_string(), Some(code));
        assert_eq!(plan.status, code);
        assert_eq!(plan.location, "http://localhost/겟");
        assert!(into_redirect(plan).is_ok());
    }
}

#[test]
fn redirect_to_post_with_status_code() {
    for code in 300..400u16 {
        assert_eq!(redirect_status(Some(code)), code);
        assert!(into_redirect(redirect_to_plan("http://localhost/🤗".to_string(), Some(code))).is_ok());
    }
}

#[test]
fn redirect_status_defaults_to_found() {
    for requested in [None, Some(0), Some(200), Some(299), Some(400), Some(404), Some(u16::MAX)] {
        assert_eq!(redirect_status(requested), 302);
    }
    assert!(into_redirect(redirect_to_plan("bad url with spaces\u{1}".to_string(), None)).is_ok());
}

#[test]
fn only_redirection_plans_make_redirects() {
    for status in [0u16, 99, 200, 299, 400, 999, 1000] {
        let e = match into_redirect(RedirectPlan { status, location: "/x".to_string() }) {
            Err(e) => e,
            Ok(_) => panic!("status {status} made a redirect"),
        };
        assert_eq!((e.status, e.brief.as_str()), (400, "Invalid URL"));
    }
    assert!(into_redirect(RedirectPlan { status: 399, location: "/x".to_string() }).is_ok());
}

#[test]
fn redirects_carry_status_and_encoded_location() {
    let plan = redirect_to_plan("http://localhost/겟 x?a=1&b=[2]".to_string(), Some(307));
    let mut res = salvo::Response::new();
    res.render(into_redirect(plan).ok().unwrap().into_inner());
    assert_eq!(res.status_code, Some(salvo::http::StatusCode::TEMPORARY_REDIRECT));
    assert_eq!(res.headers()["location"], "http://localhost/%EA%B2%9F%20x?a=1&b=[2]");
    let mut res = salvo::Response::new();
    res.render(into_redirect(redirect_to_plan("/a\"b{c}".to_string(), None)).ok().unwrap().into_inner());
    assert_eq!(res.status_code, Some(salvo::http::StatusCode::FOUND));
    assert_eq!(res.headers()["location"], "/a%22b%7Bc%7D");
}
