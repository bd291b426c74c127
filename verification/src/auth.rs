//! HTTP Basic and Bearer authentication.
use vstd::prelude::*;

use crate::problem::ApiError;
use crate::text::{chars_of, string_from_chars};

verus! {

/// Whether `c` has the Unicode `White_Space` property (what `\s` matches in
/// a Unicode regular expression).
pub open spec fn is_white_space(c: char) -> bool {
    ||| '\u{9}' <= c <= '\u{d}'
    ||| c == ' '
    ||| c == '\u{85}'
    ||| c == '\u{a0}'
    ||| c == '\u{1680}'
    ||| '\u{2000}' <= c <= '\u{200a}'
    ||| c == '\u{2028}'
    ||| c == '\u{2029}'
    ||| c == '\u{202f}'
    ||| c == '\u{205f}'
    ||| c == '\u{3000}'
}

/// Whether `c` may appear in a bearer token before its `=` padding:
/// an ASCII letter or digit, or one of `- . _ ~ + /`.
pub open spec fn is_token_char(c: char) -> bool {
    ||| 'A' <= c <= 'Z'
    ||| 'a' <= c <= 'z'
    ||| '0' <= c <= '9'
    ||| c == '-'
    ||| c == '.'
    ||| c == '_'
    ||| c == '~'
    ||| c == '+'
    ||| c == '/'
}

/// Whether `t` is a bearer token: one or more token characters followed by
/// any number of `=`.
pub open spec fn is_bearer_token(t: Seq<char>) -> bool {
    &&& t.len() > 0
    &&& is_token_char(t[0])
    &&& forall|i: int| 0 <= i < t.len() ==> is_token_char(#[trigger] t[i]) || t[i] == '='
    &&& forall|i: int, j: int| 0 <= i < j < t.len() && #[trigger] t[i] == '=' ==> #[trigger] t[j] == '='
}

/// The number of white space characters that `s` starts with.
pub open spec fn leading_white_space(s: Seq<char>) -> nat
    decreases s.len(),
{
    if s.len() > 0 && is_white_space(s[0]) {
        1 + leading_white_space(s.drop_first())
    } else {
        0
    }
}

/// The scheme word that starts a bearer `Authorization` header.
pub open spec fn bearer_scheme() -> Seq<char> {
    seq!['B', 'e', 'a', 'r', 'e', 'r']
}

/// The token of an `Authorization` header of the form `Bearer`, then one or
/// more white space characters, then a bearer token and nothing else; none
/// when the header has another form.
pub open spec fn bearer_token(h: Seq<char>) -> Option<Seq<char>> {
    if h.len() >= 6 && h.take(6) == bearer_scheme() {
        let rest = h.skip(6);
        let k = leading_white_space(rest);
        if k >= 1 && is_bearer_token(rest.skip(k as int)) {
            Some(rest.skip(k as int))
        } else {
            None
        }
    } else {
        None
    }
}

fn white_space(c: char) -> (r: bool)
    ensures
        r == is_white_space(c),
{
    ('\u{9}' <= c && c <= '\u{d}') || c == ' ' || c == '\u{85}' || c == '\u{a0}'
        || c == '\u{1680}' || ('\u{2000}' <= c && c <= '\u{200a}') || c == '\u{2028}'
        || c == '\u{2029}' || c == '\u{202f}' || c == '\u{205f}' || c == '\u{3000}'
}

fn token_char(c: char) -> (r: bool)
    ensures
        r == is_token_char(c),
{
    ('A' <= c && c <= 'Z') || ('a' <= c && c <= 'z') || ('0' <= c && c <= '9') || c == '-'
        || c == '.' || c == '_' || c == '~' || c == '+' || c == '/'
}

proof fn lemma_leading_white_space(s: Seq<char>, k: int)
    requires
        0 <= k <= s.len(),
        forall|j: int| 0 <= j < k ==> is_white_space(#[trigger] s[j]),
        k == s.len() || !is_white_space(s[k]),
    ensures
        leading_white_space(s) == k,
    decreases k,
{
    if k > 0 {
        assert forall|j: int| 0 <= j < k - 1 implies is_white_space(#[trigger] s.drop_first()[j]) by {
            assert(s.drop_first()[j] == s[j + 1]);
        }
        lemma_leading_white_space(s.drop_first(), k - 1);
    }
}

/// Extracts the token of a bearer `Authorization` header.
pub fn parse_bearer(header: &str) -> (r: Option<String>)
    ensures
        match r {
            Some(t) => bearer_token(header@) == Some(t@),
            None => bearer_token(header@) is None,
        },
{
    let cs = chars_of(header);
    let n = cs.len();
    if n < 6 || cs[0] != 'B' || cs[1] != 'e' || cs[2] != 'a' || cs[3] != 'r' || cs[4] != 'e'
        || cs[5] != 'r' {
        proof {
            if header@.len() >= 6 && header@.take(6) == bearer_scheme() {
                assert(header@.take(6)[0] == header@[0]);
                assert(header@.take(6)[1] == header@[1]);
                assert(header@.take(6)[2] == header@[2]);
                assert(header@.take(6)[3] == header@[3]);
                assert(header@.take(6)[4] == header@[4]);
                assert(header@.take(6)[5] == header@[5]);
            }
        }
        return None;
    }
    assert(header@.take(6) == bearer_scheme());
    let ghost rest = header@.skip(6);
    let mut i: usize = 6;
    while i < n && white_space(cs[i])
        invariant
            cs@ == header@,
            n == cs.len(),
            6 <= i <= n,
            rest == header@.skip(6),
            forall|j: int| 6 <= j < i ==> is_white_space(#[trigger] cs@[j]),
        decreases n - i,
    {
        i += 1;
    }
    proof {
        assert forall|j: int| 0 <= j < i - 6 implies is_white_space(#[trigger] rest[j]) by {
            assert(rest[j] == cs@[j + 6]);
        }
        if i < n {
            assert(rest[i - 6] == cs@[i as int]);
        }
        lemma_leading_white_space(rest, i - 6);
    }
    let ghost tok = rest.skip(i - 6);
    assert(tok == cs@.subrange(i as int, n as int));
    if i == 6 || i == n || !token_char(cs[i]) {
        return None;
    }
    let mut j = i + 1;
    let mut padding = false;
    while j < n
        invariant
            cs@ == header@,
            n == cs.len(),
            6 < i < j <= n,
            tok == cs@.subrange(i as int, n as int),
            header@.len() >= 6 && header@.take(6) == bearer_scheme(),
            leading_white_space(header@.skip(6)) == i - 6,
            tok == header@.skip(6).skip(i - 6),
            is_token_char(cs@[i as int]),
            forall|k: int| i <= k < j ==> is_token_char(#[trigger] cs@[k]) || cs@[k] == '=',
            forall|k: int, l: int| i <= k < l < j && #[trigger] cs@[k] == '=' ==> #[trigger] cs@[l] == '=',
            padding <==> cs@[j - 1] == '=',
        decreases n - j,
    {
        let c = cs[j];
        if c == '=' {
            padding = true;
        } else if padding || !token_char(c) {
            proof {
                if padding {
                    assert(tok[j - 1 - i] == '=' && tok[j - i] != '=');
                } else {
                    assert(tok[j - i] == c);
                }
            }
            return None;
        }
        j += 1;
    }
    proof {
        assert forall|k: int| 0 <= k < tok.len() implies is_token_char(#[trigger] tok[k]) || tok[k] == '=' by {
            assert(tok[k] == cs@[k + i]);
        }
        assert forall|k: int, l: int| 0 <= k < l < tok.len() && #[trigger] tok[k] == '=' implies #[trigger] tok[l] == '=' by {
            assert(tok[k] == cs@[k + i]);
            assert(tok[l] == cs@[l + i]);
        }
        assert(tok[0] == cs@[i as int]);
    }
    Some(string_from_chars(&cs, i, n))
}

/// A bearer header gives back its token: `Bearer`, any non-empty run of
/// white space and a bearer token make a header whose token is that token.
pub proof fn law_bearer_round_trip(space: Seq<char>, token: Seq<char>)
    requires
        space.len() >= 1,
        forall|i: int| 0 <= i < space.len() ==> is_white_space(#[trigger] space[i]),
        is_bearer_token(token),
    ensures
        bearer_token(bearer_scheme() + space + token) == Some(token),
{
    let h = bearer_scheme() + space + token;
    assert(h.take(6) =~= bearer_scheme());
    let rest = h.skip(6);
    assert(rest =~= space + token);
    assert forall|j: int| 0 <= j < space.len() implies is_white_space(#[trigger] rest[j]) by {
        assert(rest[j] == space[j]);
    }
    assert(rest[space.len() as int] == token[0]);
    lemma_leading_white_space(rest, space.len() as int);
    assert(rest.skip(space.len() as int) =~= token);
}

/// The body answered to an authenticated bearer request.
#[derive(Debug, Clone)]
pub struct BearerResponse {
    pub authenticated: bool,
    pub token: String,
}

/// The body answered to an authenticated basic request.
#[derive(Debug, Clone)]
pub struct BasicAuthResponse {
    pub authenticated: bool,
    pub user: String,
}

/// Answers the `bearer` endpoint from its `Authorization` header: no header
/// is unauthorized, a header that is not a bearer header is a bad request,
/// and a bearer header is answered with its token.
pub fn bearer_auth(authorization: Option<String>) -> (r: Result<BearerResponse, ApiError>)
    ensures
        match authorization {
            None => r matches Err(e) && e.is(401, "Unauthorized"@, "Missing authorization header"@),
            Some(h) => match bearer_token(h@) {
                None => r matches Err(e) && e.is(
                    400,
                    "Bad Request"@,
                    "Invalid authorization header"@,
                ),
                Some(t) => r matches Ok(b) && b.authenticated && b.token@ == t,
            },
        },
{
    match authorization {
        None => Err(ApiError::unauthorized("Missing authorization header")),
        Some(h) => match parse_bearer(h.as_str()) {
            None => Err(ApiError::bad_request("Invalid authorization header")),
            Some(token) => Ok(BearerResponse { authenticated: true, token }),
        },
    }
}

/// Answers the `basic-auth/{username}/{password}` endpoint once the
/// credentials were accepted.
pub fn basic_auth(username: String) -> (r: BasicAuthResponse)
    ensures
        r.authenticated,
        r.user@ == username@,
{
    BasicAuthResponse { authenticated: true, user: username }
}

/// Decides a Basic authentication attempt against the credentials that the
/// request's path names (`None` where the path did not give one): it is
/// accepted exactly when both are given and equal the presented ones.
pub fn credentials_match(
    expected_user: Option<String>,
    expected_password: Option<String>,
    username: &str,
    password: &str,
) -> (r: bool)
    ensures
        r == match (expected_user, expected_password) {
            (Some(u), Some(p)) => u@ == username@ && p@ == password@,
            _ => false,
        },
{
    match (expected_user, expected_password) {
        (Some(u), Some(p)) => str_eq(u.as_str(), username) && str_eq(p.as_str(), password),
        _ => false,
    }
}

fn str_eq(a: &str, b: &str) -> (r: bool)
    ensures
        r == (a@ == b@),
{
    let x = chars_of(a);
    let y = chars_of(b);
    if x.len() != y.len() {
        return false;
    }
    let mut i: usize = 0;
    while i < x.len()
        invariant
            x@ == a@,
            y@ == b@,
            x.len() == y.len(),
            i <= x.len(),
            forall|k: int| 0 <= k < i ==> x@[k] == y@[k],
        decreases x.len() - i,
    {
        if x[i] != y[i] {
            return false;
        }
        i += 1;
    }
    assert(x@ =~= y@);
    true
}

} // verus!
