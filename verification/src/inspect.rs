//! What the request-echo endpoints (`get`, `post` and the other methods,
//! `ip`, `user-agent`) compute from a request.
use vstd::prelude::*;

use crate::encoding::{body_text, encode_string};
use crate::problem::ApiError;
use crate::text::string_of;

verus! {

/// The most bytes of a request body that the echo endpoints read.
pub const PAYLOAD_MAX_SIZE: usize = 1048576;

/// The message of the health check.
pub fn health_message() -> (m: String)
    ensures
        m@ == "ok"@,
{
    string_of("ok")
}

/// The address a request comes from: its `X-Forwarded-For` header when it
/// has one, the peer's address otherwise.
pub fn origin(forwarded_for: Option<String>, remote_addr: String) -> (o: String)
    ensures
        o@ == match forwarded_for {
            Some(f) => f@,
            None => remote_addr@,
        },
{
    match forwarded_for {
        Some(f) => f,
        None => remote_addr,
    }
}

/// The user agent of a request: its `User-Agent` header, or nothing.
pub fn user_agent(header: Option<String>) -> (u: String)
    ensures
        u@ == match header {
            Some(h) => h@,
            None => Seq::<char>::empty(),
        },
{
    match header {
        Some(h) => h,
        None => String::new(),
    }
}

/// The echoed body of a request: none when it is larger than
/// `PAYLOAD_MAX_SIZE` (a bad request), otherwise its text as
/// `encode_string` renders it with the request's content type.
pub fn post_data(payload: Option<&[u8]>, content_type: Option<&str>) -> (r: Result<String, ApiError>)
    ensures
        match payload {
            None => r matches Err(e) && e.is(
                400,
                "Bad Request"@,
                "Payload size exceeds the limit of 1MB"@,
            ),
            Some(p) => r matches Ok(d) && d@ == body_text(
                p@,
                match content_type { Some(t) => Some(t@), None => None },
            ),
        },
{
    match payload {
        None => Err(ApiError::bad_request("Payload size exceeds the limit of 1MB")),
        Some(p) => Ok(encode_string(p, content_type)),
    }
}

/// A file uploaded with a request: its name and media type if the form
/// gives them, and its content.
#[derive(Debug)]
pub struct FilePart {
    pub name: Option<String>,
    pub content_type: Option<String>,
    pub content: Vec<u8>,
}

/// The name under which an uploaded file is echoed: its own, or nothing.
pub open spec fn part_name(p: FilePart) -> Seq<char> {
    match p.name {
        Some(n) => n@,
        None => Seq::<char>::empty(),
    }
}

/// The text under which an uploaded file is echoed.
pub open spec fn part_text(p: FilePart) -> Seq<char> {
    body_text(p.content@, match p.content_type { Some(t) => Some(t@), None => None })
}

/// The echoed uploads, in the order of the request: each file's name and
/// its content as `encode_string` renders it with the file's media type.
pub fn echo_files(parts: &Vec<FilePart>) -> (files: Vec<(String, String)>)
    ensures
        files.len() == parts.len(),
        forall|i: int|
            0 <= i < parts.len() ==> (#[trigger] files@[i]).0@ == part_name(parts@[i])
                && files@[i].1@ == part_text(parts@[i]),
{
    let mut files: Vec<(String, String)> = Vec::new();
    let mut i: usize = 0;
    while i < parts.len()
        invariant
            i <= parts.len(),
            files.len() == i,
            forall|k: int|
                0 <= k < i ==> (#[trigger] files@[k]).0@ == part_name(parts@[k]) && files@[k].1@
                    == part_text(parts@[k]),
        decreases parts.len() - i,
    {
        let part = &parts[i];
        let name = match &part.name {
            Some(n) => n.clone(),
            None => String::new(),
        };
        let ct: Option<&str> = match &part.content_type {
            Some(t) => Some(t.as_str()),
            None => None,
        };
        let text = encode_string(part.content.as_slice(), ct);
        files.push((name, text));
        i += 1;
    }
    files
}

} // verus!
