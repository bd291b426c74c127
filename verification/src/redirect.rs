//! Redirect endpoints: `redirect-to`, and the absolute and relative
//! redirect chains that end at `/get`.
use vstd::prelude::*;

use vstd::utf8::encode_utf8;

use crate::encoding::{hex_digit, is_ascii_alphanumeric};
use crate::problem::ApiError;
use crate::text::{
    chars_of, decimal, decimal_string, ends_with, has_suffix, index_of, lemma_index_of_at,
    push_str, string_from_chars, string_of,
};

verus! {

#[verifier::external_type_specification]
#[verifier::external_body]
pub struct ExRedirect(salvo::writing::Redirect);

/// Where a redirect sends the client, and with which status.
#[derive(Debug, Clone)]
pub struct RedirectPlan {
    pub status: u16,
    pub location: String,
}

/// The status code a `redirect-to` request answers with: the requested code
/// when it lies in the redirection class, `302 Found` otherwise.
pub fn redirect_status(requested: Option<u16>) -> (code: u16)
    ensures
        code == match requested {
            Some(x) => if 300 <= x < 400 { x } else { 302 },
            None => 302,
        },
        300 <= code < 400,
{
    match requested {
        Some(x) => if 300 <= x && x < 400 {
            x
        } else {
            302
        },
        None => 302,
    }
}

/// The redirect that a `redirect-to` request with target `url` and
/// requested status `status_code` answers with.
pub fn redirect_to_plan(url: String, status_code: Option<u16>) -> (p: RedirectPlan)
    ensures
        p.status == redirect_status_spec(status_code),
        p.status == match status_code {
            Some(x) => if 300 <= x < 400 { x } else { 302 },
            None => 302,
        },
        300 <= p.status < 400,
        p.location@ == url@,
{
    RedirectPlan { status: redirect_status(status_code), location: url }
}

/// Every `redirect-to` status is a redirection: the requested code is kept
/// exactly when it lies in `300..400`, and any other request, or none,
/// falls back to `302 Found`.
pub proof fn law_redirect_to_is_redirection(requested: Option<u16>)
    ensures
        300 <= redirect_status_spec(requested) < 400,
        forall|x: u16|
            requested == Some(x) && 300 <= x < 400 ==> redirect_status_spec(requested) == x,
        forall|x: u16|
            requested == Some(x) && !(300 <= x < 400) ==> redirect_status_spec(requested) == 302,
        requested is None ==> redirect_status_spec(requested) == 302,
{
}

/// The status chosen by `redirect_status`.
pub open spec fn redirect_status_spec(requested: Option<u16>) -> u16 {
    match requested {
        Some(x) => if 300 <= x < 400 { x } else { 302 },
        None => 302,
    }
}

/// Whether salvo writes the byte `b` of a redirect target into the
/// `Location` header as it is: ASCII letters and digits, and the characters
/// `- _ . ~ / : @ ! $ & ' ( ) * + , ; = % ? # [ ]`.
pub open spec fn is_location_byte(b: u8) -> bool {
    ||| is_ascii_alphanumeric(b)
    ||| b == 45 || b == 95 || b == 46 || b == 126 || b == 47 || b == 58 || b == 64
    ||| b == 33 || b == 36 || b == 38 || b == 39 || b == 40 || b == 41 || b == 42
    ||| b == 43 || b == 44 || b == 59 || b == 61 || b == 37 || b == 63 || b == 35
    ||| b == 91 || b == 93
}

/// The `Location` value salvo makes of the target bytes `b`: every byte
/// but those `is_location_byte` keeps is written as `%` and two uppercase
/// hexadecimal digits (so non-ASCII bytes, controls, space, `"`, `<`, `>`,
/// `\`, `^`, `` ` ``, `{`, `|` and `}` are encoded).
pub open spec fn location_encoded(b: Seq<u8>) -> Seq<char>
    decreases b.len(),
{
    if b.len() == 0 {
        seq![]
    } else {
        let first = if is_location_byte(b[0]) {
            seq![b[0] as char]
        } else {
            seq!['%', hex_digit(b[0] as int / 16), hex_digit(b[0] as int % 16)]
        };
        first + location_encoded(b.skip(1))
    }
}

/// A redirect response ready to be written: salvo's redirect, with the
/// status and `Location` value it answers with.
pub struct RedirectResponse {
    redirect: salvo::writing::Redirect,
    status: Ghost<u16>,
    location: Ghost<Seq<char>>,
}

impl RedirectResponse {
    /// The status the redirect answers with.
    pub closed spec fn status(&self) -> u16 {
        self.status@
    }

    /// The value of the redirect's `Location` header.
    pub closed spec fn location(&self) -> Seq<char> {
        self.location@
    }

    /// The redirect to write into a response.
    pub fn into_inner(self) -> salvo::writing::Redirect {
        self.redirect
    }
}

/// Calls `salvo::writing::Redirect::with_status_code` (with the status
/// code `code` converts to, when it is one). It succeeds exactly for a
/// redirection status, and then answers with that status and a `Location`
/// header holding the UTF-8 bytes of `location` percent-encoded with salvo's
/// path set (`location_encoded`); the encoded value is printable ASCII, so
/// it is always a valid header value.
#[verifier::external_body]
fn redirect_with_status(code: u16, location: &str) -> (r: Result<RedirectResponse, ()>)
    ensures
        r is Ok <==> 300 <= code < 400,
        match r {
            Ok(x) => x.status() == code && x.location() == location_encoded(encode_utf8(location@)),
            Err(_) => true,
        },
{
    match salvo::http::StatusCode::from_u16(code) {
        Ok(status) => match salvo::writing::Redirect::with_status_code(status, location) {
            Ok(redirect) => Ok(RedirectResponse {
                redirect,
                status: Ghost(code),
                location: Ghost(location_encoded(encode_utf8(location@))),
            }),
            Err(_) => Err(()),
        },
        Err(_) => Err(()),
    }
}

/// Makes the response writer for a redirect plan: it answers with the
/// plan's status and its target, encoded as salvo writes `Location`. A plan
/// that cannot be made into a redirect (its status is not a redirection) is
/// a bad request.
pub fn into_redirect(plan: RedirectPlan) -> (r: Result<RedirectResponse, ApiError>)
    ensures
        r is Ok <==> 300 <= plan.status < 400,
        match r {
            Ok(x) => x.status() == plan.status && x.location() == location_encoded(
                encode_utf8(plan.location@),
            ),
            Err(e) => e.is(400, "Bad Request"@, "Invalid URL"@),
        },
{
    match redirect_with_status(plan.status, plan.location.as_str()) {
        Ok(redirect) => Ok(redirect),
        Err(_) => Err(ApiError::bad_request("Invalid URL")),
    }
}

/// The part of a URI before its query, if it has one.
pub open spec fn without_query(uri: Seq<char>) -> Seq<char> {
    uri.take(index_of(uri, '?') as int)
}

/// The path segment that names a redirect chain step: `/<kind>/<n>`.
pub open spec fn step_suffix(kind: Seq<char>, n: nat) -> Seq<char> {
    seq!['/'] + kind + seq!['/'] + decimal(n)
}

/// The part of `path` that a chain step at `/<kind>/<n>` is mounted under:
/// `path` without that ending, or nothing when `path` does not end so.
pub open spec fn mount_base(path: Seq<char>, kind: Seq<char>, n: nat) -> Seq<char> {
    let suffix = step_suffix(kind, n);
    if has_suffix(path, suffix) {
        path.take(path.len() - suffix.len())
    } else {
        seq![]
    }
}

/// Where step `n` of a redirect chain mounted at `base` leads: the next
/// step `n - 1`, or `/get` after the last one.
pub open spec fn next_step(base: Seq<char>, kind: Seq<char>, n: nat) -> Seq<char> {
    if n == 1 {
        base + "/get"@
    } else {
        base + step_suffix(kind, (n - 1) as nat)
    }
}

/// The chain step name of absolute redirects.
pub open spec fn absolute_kind() -> Seq<char> {
    "absolute-redirect"@
}

/// The chain step name of relative redirects.
pub open spec fn relative_kind() -> Seq<char> {
    "relative-redirect"@
}

fn step_location(path: &Vec<char>, kind: &str, n: u8) -> (loc: String)
    requires
        n >= 1,
    ensures
        loc@ == next_step(mount_base(path@, kind@, n as nat), kind@, n as nat),
{
    proof {
        reveal_strlit("/");
    }
    let mut suffix = string_of("/");
    push_str(&mut suffix, kind);
    push_str(&mut suffix, "/");
    let digits = decimal_string(n as u32);
    push_str(&mut suffix, digits.as_str());
    let sfx = chars_of(suffix.as_str());
    assert(sfx@ =~= step_suffix(kind@, n as nat));
    let mut loc = if ends_with(path, &sfx) {
        string_from_chars(path, 0, path.len() - sfx.len())
    } else {
        String::new()
    };
    proof {
        if has_suffix(path@, sfx@) {
            assert(path@.subrange(0, path@.len() - sfx@.len()) =~= path@.take(path@.len() - sfx@.len()));
        }
    }
    assert(loc@ == mount_base(path@, kind@, n as nat));
    let ghost base = loc@;
    if n == 1 {
        push_str(&mut loc, "/get");
    } else {
        push_str(&mut loc, "/");
        push_str(&mut loc, kind);
        push_str(&mut loc, "/");
        let prev = decimal_string((n - 1) as u32);
        push_str(&mut loc, prev.as_str());
        assert(loc@ =~= base + step_suffix(kind@, (n - 1) as nat));
    }
    loc
}

/// Answers step `n` of the absolute redirect chain, requested at `uri` (the
/// full request URI): `n` must be positive, and the redirect keeps the
/// scheme, host and mount path of `uri` and drops its query.
pub fn absolute_redirect(uri: &str, n: u8) -> (r: Result<RedirectPlan, ApiError>)
    ensures
        n == 0 ==> (r matches Err(e) && e.is(400, "Bad Request"@, "n must be greater than 0"@)),
        n > 0 ==> (r matches Ok(p) && p.status == 302 && p.location@ == next_step(
            mount_base(without_query(uri@), absolute_kind(), n as nat),
            absolute_kind(),
            n as nat,
        )),
{
    if n == 0 {
        return Err(ApiError::bad_request("n must be greater than 0"));
    }
    let cs = chars_of(uri);
    let mut q: usize = 0;
    while q < cs.len() && cs[q] != '?'
        invariant
            cs@ == uri@,
            q <= cs.len(),
            forall|j: int| 0 <= j < q ==> cs@[j] != '?',
        decreases cs.len() - q,
    {
        q += 1;
    }
    proof {
        lemma_index_of_at(uri@, '?', q as int);
    }
    let path_str = string_from_chars(&cs, 0, q);
    let path = chars_of(path_str.as_str());
    assert(path@ == without_query(uri@));
    let location = step_location(&path, "absolute-redirect", n);
    Ok(RedirectPlan { status: 302, location })
}

/// Answers step `n` of the relative redirect chain, requested at `path`
/// (the request's path, without scheme, host or query): `n` must be
/// positive, and the redirect keeps the mount path.
pub fn relative_redirect(path: &str, n: u8) -> (r: Result<RedirectPlan, ApiError>)
    ensures
        n == 0 ==> (r matches Err(e) && e.is(400, "Bad Request"@, "n must be greater than 0"@)),
        n > 0 ==> (r matches Ok(p) && p.status == 302 && p.location@ == next_step(
            mount_base(path@, relative_kind(), n as nat),
            relative_kind(),
            n as nat,
        )),
{
    if n == 0 {
        return Err(ApiError::bad_request("n must be greater than 0"));
    }
    let cs = chars_of(path);
    let location = step_location(&cs, "relative-redirect", n);
    Ok(RedirectPlan { status: 302, location })
}

/// A redirect chain keeps its mount point and counts down: step `n`
/// requested at `base` followed by the step's path leads to step `n - 1` at
/// the same `base`, and the last step leads to `base` followed by `/get`.
pub proof fn law_chain_step(base: Seq<char>, kind: Seq<char>, n: nat)
    requires
        n >= 1,
    ensures
        next_step(mount_base(base + step_suffix(kind, n), kind, n), kind, n) == if n == 1 {
            base + "/get"@
        } else {
            base + step_suffix(kind, (n - 1) as nat)
        },
{
    let path = base + step_suffix(kind, n);
    let suffix = step_suffix(kind, n);
    assert(path.skip(path.len() - suffix.len()) =~= suffix);
    assert(path.take(path.len() - suffix.len()) =~= base);
}

/// The query of a request does not reach the redirect chain: a URI whose
/// path holds no `?` leads where its path alone leads.
pub proof fn law_query_ignored(path: Seq<char>, query: Seq<char>)
    requires
        forall|j: int| 0 <= j < path.len() ==> path[j] != '?',
    ensures
        without_query(path + seq!['?'] + query) == path,
        without_query(path) == path,
{
    let u = path + seq!['?'] + query;
    assert forall|j: int| 0 <= j < path.len() implies u[j] != '?' by {
        assert(u[j] == path[j]);
    }
    lemma_index_of_at(u, '?', path.len() as int);
    lemma_index_of_at(path, '?', path.len() as int);
    assert(u.take(path.len() as int) =~= path);
    assert(path.take(path.len() as int) =~= path);
}

} // verus!
