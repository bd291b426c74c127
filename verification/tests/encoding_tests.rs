use httped::encoding::{disposition_header, encode_string};

#[test]
fn utf8_bodies_are_echoed_as_text() {
    assert_eq!(encode_string(b"hello", None), "hello");
    assert_eq!(encode_string("héllo 🤗".as_bytes(), Some("image/png")), "héllo 🤗");
    assert_eq!(encode_string(b"", None), "");
}

#[test]
fn other_bodies_are_base64_data_uris() {
    assert_eq!(encode_string(&[0xff, 0x00], None), "data:application/octet-stream;base64,/wA=");
    assert_eq!(encode_string(&[0xff], Some("image/png")), "data:image/png;base64,/w==");
    assert_eq!(encode_string(&[0xff, b'M', b'a', b'n'], None), "data:application/octet-stream;base64,/01hbg==");
    assert_eq!(encode_string(&[0xfb, 0xff, 0xbf], None), "data:application/octet-stream;base64,+/+/");
    assert_eq!(encode_string(&[0xc3], Some("text/plain")), "data:text/plain;base64,ww==");
}

#[test]
fn disposition_names_the_file_percent_encoded() {
    assert_eq!(disposition_header(None), "attachment");
    assert_eq!(
        disposition_header(Some("a b.txt".to_string())),
        "attachment; filename=a%20b%2Etxt; filename*=utf-8''a%20b%2Etxt"
    );
    assert_eq!(
        disposition_header(Some("é-Z9".to_string())),
        "attachment; filename=%C3%A9%2DZ9; filename*=utf-8''%C3%A9%2DZ9"
    );
}
