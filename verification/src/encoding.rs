//! How request and response bodies are rendered as text: UTF-8 text as it
//! is, other bytes as a base64 `data:` URI, and file names as the
//! percent-encoded parameter of a `Content-Disposition` header.
use vstd::prelude::*;
use vstd::utf8::{
    decode_utf8, encode_utf8, encode_utf8_decode_utf8, encode_utf8_valid_utf8, valid_utf8,
};

use crate::text::{push_str, string_of};

verus! {

/// The character of the standard base64 alphabet for the six-bit value `v`.
pub open spec fn base64_char(v: int) -> char {
    if v < 26 {
        (65 + v) as char
    } else if v < 52 {
        (97 + v - 26) as char
    } else if v < 62 {
        (48 + v - 52) as char
    } else if v == 62 {
        '+'
    } else {
        '/'
    }
}

/// The standard base64 encoding (RFC 4648, section 4) of `b`, padded with
/// `=` to a multiple of four characters.
pub open spec fn base64(b: Seq<u8>) -> Seq<char>
    decreases b.len(),
{
    if b.len() == 0 {
        seq![]
    } else if b.len() == 1 {
        let n = b[0] * 65536;
        seq![base64_char(n / 262144), base64_char((n / 4096) % 64), '=', '=']
    } else if b.len() == 2 {
        let n = b[0] * 65536 + b[1] * 256;
        seq![base64_char(n / 262144), base64_char((n / 4096) % 64), base64_char((n / 64) % 64), '=']
    } else {
        let n = b[0] * 65536 + b[1] * 256 + b[2];
        seq![
            base64_char(n / 262144),
            base64_char((n / 4096) % 64),
            base64_char((n / 64) % 64),
            base64_char(n % 64),
        ] + base64(b.skip(3))
    }
}

/// The six-bit value of a base64 character (`=` and others count as 0).
pub open spec fn base64_value(c: char) -> int {
    if 'A' <= c <= 'Z' {
        c as int - 65
    } else if 'a' <= c <= 'z' {
        c as int - 71
    } else if '0' <= c <= '9' {
        c as int + 4
    } else if c == '+' {
        62
    } else if c == '/' {
        63
    } else {
        0
    }
}

/// The bytes that a padded base64 text stands for: each group of four
/// characters gives three bytes, or fewer when it ends with `=` padding.
pub open spec fn base64_decoded(s: Seq<char>) -> Seq<u8>
    decreases s.len(),
{
    if s.len() < 4 {
        seq![]
    } else {
        let v = base64_value(s[0]) * 262144 + base64_value(s[1]) * 4096 + base64_value(s[2]) * 64
            + base64_value(s[3]);
        if s[2] == '=' {
            seq![(v / 65536) as u8]
        } else if s[3] == '=' {
            seq![(v / 65536) as u8, ((v / 256) % 256) as u8]
        } else {
            seq![(v / 65536) as u8, ((v / 256) % 256) as u8, (v % 256) as u8] + base64_decoded(
                s.skip(4),
            )
        }
    }
}

proof fn lemma_base64_char_value(v: int)
    requires
        0 <= v < 64,
    ensures
        base64_value(base64_char(v)) == v,
        base64_char(v) != '=',
{
}

proof fn lemma_base64_group(n: int)
    requires
        0 <= n < 16777216,
    ensures
        (n / 262144) * 262144 + ((n / 4096) % 64) * 4096 + ((n / 64) % 64) * 64 + n % 64 == n,
        0 <= n / 262144 < 64,
{
    assert((n / 262144) * 262144 + ((n / 4096) % 64) * 4096 + ((n / 64) % 64) * 64 + n % 64 == n)
        by (nonlinear_arith)
        requires
            0 <= n < 16777216,
    ;
    assert(0 <= n / 262144 < 64) by (nonlinear_arith)
        requires
            0 <= n < 16777216,
    ;
}

/// The base64 part of a `data:` URI stands for the body: decoding the
/// encoding of any bytes gives them back.
pub proof fn law_base64_decodes_back(b: Seq<u8>)
    ensures
        base64_decoded(base64(b)) == b,
    decreases b.len(),
{
    if b.len() == 0 {
    } else if b.len() == 1 {
        let n = b[0] * 65536;
        lemma_base64_group(n);
        lemma_base64_char_value(n / 262144);
        lemma_base64_char_value((n / 4096) % 64);
        let e = base64(b);
        assert(e[2] == '=');
        assert((n / 262144) * 262144 + ((n / 4096) % 64) * 4096 == n) by (nonlinear_arith)
            requires
                n == b[0] * 65536,
                0 <= b[0] < 256,
        ;
        assert(base64_decoded(e) =~= b);
    } else if b.len() == 2 {
        let n = b[0] * 65536 + b[1] * 256;
        lemma_base64_group(n);
        lemma_base64_char_value(n / 262144);
        lemma_base64_char_value((n / 4096) % 64);
        lemma_base64_char_value((n / 64) % 64);
        let e = base64(b);
        assert(e[2] != '=' && e[3] == '=');
        assert((n / 262144) * 262144 + ((n / 4096) % 64) * 4096 + ((n / 64) % 64) * 64 == n)
            by (nonlinear_arith)
            requires
                n == b[0] * 65536 + b[1] * 256,
                0 <= b[0] < 256,
                0 <= b[1] < 256,
        ;
        assert(n / 65536 == b[0] && (n / 256) % 256 == b[1]) by (nonlinear_arith)
            requires
                n == b[0] * 65536 + b[1] * 256,
                0 <= b[0] < 256,
                0 <= b[1] < 256,
        ;
        assert(base64_decoded(e) =~= b);
    } else {
        let n = b[0] * 65536 + b[1] * 256 + b[2];
        lemma_base64_group(n);
        lemma_base64_char_value(n / 262144);
        lemma_base64_char_value((n / 4096) % 64);
        lemma_base64_char_value((n / 64) % 64);
        lemma_base64_char_value(n % 64);
        let e = base64(b);
        let rest = base64(b.skip(3));
        law_base64_decodes_back(b.skip(3));
        assert(e[2] != '=' && e[3] != '=');
        assert(e.skip(4) =~= rest);
        assert(n / 65536 == b[0] && (n / 256) % 256 == b[1] && n % 256 == b[2]) by (nonlinear_arith)
            requires
                n == b[0] * 65536 + b[1] * 256 + b[2],
                0 <= b[0] < 256,
                0 <= b[1] < 256,
                0 <= b[2] < 256,
        ;
        assert(base64_decoded(e) =~= b);
    }
}

/// Calls `data_encoding::BASE64.encode`: the standard, padded base64
/// encoding of `bytes`.
#[verifier::external_body]
fn base64_encode(bytes: &[u8]) -> (r: String)
    ensures
        r@ == base64(bytes@),
{
    data_encoding::BASE64.encode(bytes)
}

/// Calls `String::from_utf8`: the text that `bytes` encode when they are
/// valid UTF-8, nothing otherwise.
#[verifier::external_body]
fn utf8_text(bytes: &[u8]) -> (r: Option<String>)
    ensures
        match r {
            Some(s) => valid_utf8(bytes@) && s@ == decode_utf8(bytes@),
            None => !valid_utf8(bytes@),
        },
{
    String::from_utf8(bytes.to_vec()).ok()
}

/// The media type assumed for bytes whose type the request does not give.
pub open spec fn octet_stream() -> Seq<char> {
    "application/octet-stream"@
}

/// How a body is shown as text: a body that is valid UTF-8 as its text,
/// any other as a base64 `data:` URI of the given media type.
pub open spec fn body_text(input: Seq<u8>, content_type: Option<Seq<char>>) -> Seq<char> {
    if valid_utf8(input) {
        decode_utf8(input)
    } else {
        "data:"@ + match content_type {
            Some(t) => t,
            None => octet_stream(),
        } + ";base64,"@ + base64(input)
    }
}

/// Renders a body as text: valid UTF-8 as it is, anything else as a base64
/// `data:` URI of `content_type` (`application/octet-stream` if none).
pub fn encode_string(input: &[u8], content_type: Option<&str>) -> (s: String)
    ensures
        s@ == body_text(input@, match content_type { Some(t) => Some(t@), None => None }),
{
    match utf8_text(input) {
        Some(s) => s,
        None => {
            let mut s = string_of("data:");
            match content_type {
                Some(t) => push_str(&mut s, t),
                None => push_str(&mut s, "application/octet-stream"),
            }
            push_str(&mut s, ";base64,");
            let encoded = base64_encode(input);
            push_str(&mut s, encoded.as_str());
            s
        },
    }
}

/// Text bodies are echoed as they are: the UTF-8 encoding of any text is
/// shown as that text, whatever the content type.
pub proof fn law_text_echoed_verbatim(s: Seq<char>, content_type: Option<Seq<char>>)
    ensures
        body_text(encode_utf8(s), content_type) == s,
{
    encode_utf8_valid_utf8(s);
    encode_utf8_decode_utf8(s);
}

/// The uppercase hexadecimal digit for `v` (below sixteen).
pub open spec fn hex_digit(v: int) -> char {
    if v < 10 {
        (48 + v) as char
    } else {
        (55 + v) as char
    }
}

/// Whether `b` is an ASCII letter or digit.
pub open spec fn is_ascii_alphanumeric(b: u8) -> bool {
    (48 <= b <= 57) || (65 <= b <= 90) || (97 <= b <= 122)
}

/// The percent-encoding of `b` that keeps ASCII letters and digits and
/// writes every other byte as `%` and two uppercase hexadecimal digits.
pub open spec fn percent_encoded(b: Seq<u8>) -> Seq<char>
    decreases b.len(),
{
    if b.len() == 0 {
        seq![]
    } else {
        let first = if is_ascii_alphanumeric(b[0]) {
            seq![b[0] as char]
        } else {
            seq!['%', hex_digit(b[0] as int / 16), hex_digit(b[0] as int % 16)]
        };
        first + percent_encoded(b.skip(1))
    }
}

/// The value of the hexadecimal digit `c` (either case).
pub open spec fn hex_value(c: char) -> int {
    if '0' <= c <= '9' {
        c as int - 48
    } else if 'A' <= c <= 'F' {
        c as int - 55
    } else {
        c as int - 87
    }
}

/// The bytes that a percent-encoded text stands for: each `%` and the two
/// hexadecimal digits after it for one byte, every other character for its
/// own (ASCII) code.
pub open spec fn percent_decoded(s: Seq<char>) -> Seq<u8>
    decreases s.len(),
{
    if s.len() == 0 {
        seq![]
    } else if s[0] == '%' && s.len() >= 3 {
        seq![(hex_value(s[1]) * 16 + hex_value(s[2])) as u8] + percent_decoded(s.skip(3))
    } else {
        seq![s[0] as u8] + percent_decoded(s.skip(1))
    }
}

/// Whether `c` may stand in a percent-encoded file name: an ASCII letter or
/// digit, or `%`.
pub open spec fn is_encoded_name_char(c: char) -> bool {
    ('0' <= c <= '9') || ('A' <= c <= 'Z') || ('a' <= c <= 'z') || c == '%'
}

/// A percent-encoded file name is a plain ASCII header token and stands for
/// the name: it holds only letters, digits and `%` (each `%` followed by
/// two uppercase hexadecimal digits), and decoding it gives the bytes back.
pub proof fn law_percent_encoding_decodes_back(b: Seq<u8>)
    ensures
        percent_decoded(percent_encoded(b)) == b,
        forall|i: int|
            0 <= i < percent_encoded(b).len() ==> is_encoded_name_char(
                #[trigger] percent_encoded(b)[i],
            ),
    decreases b.len(),
{
    if b.len() > 0 {
        let rest = b.skip(1);
        law_percent_encoding_decodes_back(rest);
        let e = percent_encoded(b);
        let er = percent_encoded(rest);
        let x = b[0];
        if is_ascii_alphanumeric(x) {
            assert(e == seq![x as char] + er);
            assert(e[0] == x as char);
            assert(e.skip(1) =~= er);
            assert((x as char) as u8 == x);
            assert(percent_decoded(e) =~= b);
            assert forall|i: int| 0 <= i < e.len() implies is_encoded_name_char(#[trigger] e[i]) by {
                if i > 0 {
                    assert(e[i] == er[i - 1]);
                }
            }
        } else {
            let hi = x as int / 16;
            let lo = x as int % 16;
            assert(e == seq!['%', hex_digit(hi), hex_digit(lo)] + er);
            assert(e[0] == '%' && e[1] == hex_digit(hi) && e[2] == hex_digit(lo));
            assert(hex_value(hex_digit(hi)) == hi);
            assert(hex_value(hex_digit(lo)) == lo);
            assert(e.skip(3) =~= er);
            assert(percent_decoded(e) =~= b);
            assert forall|i: int| 0 <= i < e.len() implies is_encoded_name_char(#[trigger] e[i]) by {
                if i >= 3 {
                    assert(e[i] == er[i - 3]);
                }
            }
        }
    }
}

/// Calls `percent_encoding::utf8_percent_encode` with the set
/// `NON_ALPHANUMERIC`, which percent-encodes every byte of the UTF-8
/// encoding of `s` but the ASCII letters and digits.
#[verifier::external_body]
fn percent_encode_non_alphanumeric(s: &str) -> (r: String)
    ensures
        r@ == percent_encoded(encode_utf8(s@)),
{
    percent_encoding::utf8_percent_encode(s, percent_encoding::NON_ALPHANUMERIC).to_string()
}

/// The `Content-Disposition` value of a download: `attachment`, naming the
/// file when a name is given, both as a plain parameter and as an RFC 5987
/// UTF-8 parameter, percent-encoded.
pub open spec fn disposition(filename: Option<Seq<char>>) -> Seq<char> {
    match filename {
        Some(name) => {
            let e = percent_encoded(encode_utf8(name));
            "attachment; filename="@ + e + "; filename*=utf-8''"@ + e
        },
        None => "attachment"@,
    }
}

/// Builds the `Content-Disposition` value of a download.
pub fn disposition_header(filename: Option<String>) -> (h: String)
    ensures
        h@ == disposition(match filename { Some(n) => Some(n@), None => None }),
{
    match filename {
        Some(name) => {
            let encoded = percent_encode_non_alphanumeric(name.as_str());
            let mut h = string_of("attachment; filename=");
            push_str(&mut h, encoded.as_str());
            push_str(&mut h, "; filename*=utf-8''");
            push_str(&mut h, encoded.as_str());
            h
        },
        None => string_of("attachment"),
    }
}

} // verus!
