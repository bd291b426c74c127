use httped::inspect::{echo_files, health_message, origin, post_data, user_agent, FilePart};

#[test]
fn origin_prefers_forwarded_for() {
    assert_eq!(origin(Some("10.0.0.1".to_string()), "127.0.0.1:80".to_string()), "10.0.0.1");
    assert_eq!(origin(None, "127.0.0.1:80".to_string()), "127.0.0.1:80");
    assert_eq!(user_agent(Some("curl/8".to_string())), "curl/8");
    assert_eq!(user_agent(None), "");
    assert_eq!(health_message(), "ok");
}

#[test]
fn posted_bodies_are_echoed() {
    assert_eq!(post_data(Some(b"{\"a\":1}"), Some("application/json")).unwrap(), "{\"a\":1}");
    assert_eq!(post_data(Some(&[0x80]), None).unwrap(), "data:application/octet-stream;base64,gA==");
    let e = post_data(None, None).unwrap_err();
    assert_eq!((e.status, e.brief.as_str()), (400, "Payload size exceeds the limit of 1MB"));
}

#[test]
fn uploads_are_echoed_in_order() {
    let parts = vec![
        FilePart { name: Some("a.txt".to_string()), content_type: Some("text/plain".to_string()), content: b"hi".to_vec() },
        FilePart { name: None, content_type: Some("image/png".to_string()), content: vec![0x89, 0x50] },
    ];
    let files = echo_files(&parts);
    assert_eq!(files, vec![("a.txt".to_string(), "hi".to_string()), (String::new(), "data:image/png;base64,iVA=".to_string())]);
}
