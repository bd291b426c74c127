//! Errors of the service and their rendering as RFC 9457 problem details.
use vstd::prelude::*;

use crate::text::{chars_of, decimal, digit_char, string_of};

verus! {

/// An error answered to a client: the HTTP status, the status's name and a
/// short description of what went wrong.
#[derive(Debug, Clone)]
pub struct ApiError {
    pub status: u16,
    pub name: String,
    pub brief: String,
}

impl ApiError {
    /// Whether this error has the given status, name and brief.
    pub open spec fn is(self, status: u16, name: Seq<char>, brief: Seq<char>) -> bool {
        self.status == status && self.name@ == name && self.brief@ == brief
    }

    /// A `400 Bad Request` error with the given brief.
    pub fn bad_request(brief: &str) -> (e: ApiError)
        ensures
            e.is(400, "Bad Request"@, brief@),
    {
        ApiError { status: 400, name: string_of("Bad Request"), brief: string_of(brief) }
    }

    /// A `401 Unauthorized` error with the given brief.
    pub fn unauthorized(brief: &str) -> (e: ApiError)
        ensures
            e.is(401, "Unauthorized"@, brief@),
    {
        ApiError { status: 401, name: string_of("Unauthorized"), brief: string_of(brief) }
    }

    /// A `500 Internal Server Error` error with the given brief.
    pub fn internal_server_error(brief: String) -> (e: ApiError)
        ensures
            e.is(500, "Internal Server Error"@, brief@),
    {
        ApiError { status: 500, name: string_of("Internal Server Error"), brief }
    }
}

/// The body of a problem response (RFC 9457).
#[derive(Debug, Clone)]
pub struct ProblemDetails {
    /// The problem type; always `about:blank`.
    pub problem_type: String,
    pub title: String,
    pub status: u16,
    pub detail: String,
    pub instance: String,
}

/// The canonical reason phrase that the `http` crate gives a status code,
/// if it has one.
pub uninterp spec fn canonical_reason_phrase(code: u16) -> Option<Seq<char>>;

/// Calls `http::StatusCode::canonical_reason` on `code`: the result is the
/// phrase that the crate's table holds for the code, if any. Which codes
/// the table holds is not stated.
#[verifier::external_body]
fn canonical_reason(code: u16) -> (r: Option<String>)
    requires
        100 <= code < 1000,
    ensures
        match r {
            Some(s) => canonical_reason_phrase(code) == Some(s@),
            None => canonical_reason_phrase(code) is None,
        },
{
    salvo::http::StatusCode::from_u16(code).ok().and_then(|s| s.canonical_reason()).map(|s| s.to_string())
}

/// The title of a problem whose response carries no error of its own.
pub open spec fn fallback_title(code: u16) -> Seq<char> {
    match canonical_reason_phrase(code) {
        Some(p) => p,
        None => "HTTP Error"@,
    }
}

/// Builds the problem details for a response with status `status` (none
/// meaning `404`), carrying the error `error` (its name and brief) if it
/// has one, answered to a request whose path with query is
/// `path_and_query` (or only `path` when the request had none).
pub fn problem_details(
    status: Option<u16>,
    error: Option<(String, String)>,
    path_and_query: Option<String>,
    path: String,
) -> (p: ProblemDetails)
    requires
        status matches Some(s) ==> 100 <= s < 1000,
    ensures
        p.problem_type@ == "about:blank"@,
        p.status == match status { Some(s) => s, None => 404 },
        match error {
            Some((name, brief)) => p.title@ == name@ && p.detail@ == brief@,
            None => p.title@ == fallback_title(p.status) && p.detail@ == p.title@,
        },
        p.instance@ == match path_and_query { Some(pq) => pq@, None => path@ },
{
    let code = match status {
        Some(s) => s,
        None => 404,
    };
    let (title, detail) = match error {
        Some((name, brief)) => (name, brief),
        None => {
            let t = match canonical_reason(code) {
                Some(r) => r,
                None => string_of("HTTP Error"),
            };
            let d = t.clone();
            (t, d)
        },
    };
    let instance = match path_and_query {
        Some(pq) => pq,
        None => path,
    };
    ProblemDetails { problem_type: string_of("about:blank"), title, status: code, detail, instance }
}

/// The value of a run of ASCII digits.
pub open spec fn digits_value(s: Seq<char>) -> nat
    decreases s.len(),
{
    if s.len() == 0 {
        0
    } else {
        digits_value(s.drop_last()) * 10 + ((s.last() as int - 48) as nat)
    }
}

/// Whether every character of `s` is an ASCII digit.
pub open spec fn all_digits(s: Seq<char>) -> bool {
    forall|i: int| 0 <= i < s.len() ==> '0' <= #[trigger] s[i] <= '9'
}

/// What `str::parse::<u16>` gives for `s`: an optional `+` followed by at
/// least one digit and nothing else, of a value that fits in 16 bits.
pub open spec fn parsed_u16(s: Seq<char>) -> Option<u16> {
    let d = if s.len() > 0 && s[0] == '+' { s.drop_first() } else { s };
    if d.len() > 0 && all_digits(d) && digits_value(d) <= 65535 {
        Some(digits_value(d) as u16)
    } else {
        None
    }
}

/// Parses a decimal `u16`, as `str::parse::<u16>` does.
pub fn parse_u16(s: &str) -> (r: Option<u16>)
    ensures
        r == parsed_u16(s@),
{
    let cs = chars_of(s);
    let n = cs.len();
    let start: usize = if n > 0 && cs[0] == '+' { 1 } else { 0 };
    let ghost d = if s@.len() > 0 && s@[0] == '+' { s@.drop_first() } else { s@ };
    assert(d == s@.subrange(start as int, n as int));
    if start >= n {
        return None;
    }
    let mut value: u32 = 0;
    let mut i = start;
    while i < n
        invariant
            cs@ == s@,
            n == cs.len(),
            start <= i <= n,
            d == s@.subrange(start as int, n as int),
            d == (if s@.len() > 0 && s@[0] == '+' { s@.drop_first() } else { s@ }),
            d.len() > 0,
            all_digits(d.take(i - start)),
            value == digits_value(d.take(i - start)),
            value <= 65535,
        decreases n - i,
    {
        let c = cs[i];
        if !('0' <= c && c <= '9') {
            assert(d[i - start] == c);
            assert(!all_digits(d));
            return None;
        }
        let dv: u32 = (c as u32) - 48;
        assert(d.take(i + 1 - start).drop_last() == d.take(i - start));
        assert(d.take(i + 1 - start).last() == c);
        assert(all_digits(d.take(i + 1 - start))) by {
            assert forall|k: int| 0 <= k < d.take(i + 1 - start).len() implies '0' <= #[trigger] d.take(i + 1 - start)[k] <= '9' by {
                if k < i - start {
                    assert(d.take(i + 1 - start)[k] == d.take(i - start)[k]);
                }
            }
        }
        if value * 10 + dv > 65535 {
            assert(digits_value(d.take(i + 1 - start)) > 65535);
            proof {
                assert(d.take(d.len() as int) == d);
                if all_digits(d) {
                    lemma_digits_value_monotone(d, i + 1 - start, d.len() as int);
                }
            }
            return None;
        }
        value = value * 10 + dv;
        i += 1;
    }
    assert(d.take(n - start) == d);
    Some(value as u16)
}

proof fn lemma_digits_value_monotone(d: Seq<char>, i: int, j: int)
    requires
        0 <= i <= j <= d.len(),
        all_digits(d.take(j)),
    ensures
        digits_value(d.take(i)) <= digits_value(d.take(j)),
    decreases j - i,
{
    if i < j {
        assert(d.take(j).drop_last() == d.take(j - 1));
        assert(all_digits(d.take(j - 1))) by {
            assert forall|k: int| 0 <= k < d.take(j - 1).len() implies '0' <= #[trigger] d.take(j - 1)[k] <= '9' by {
                assert(d.take(j - 1)[k] == d.take(j)[k]);
            }
        }
        assert(d.take(j)[j - 1] == d.take(j).last());
        lemma_digits_value_monotone(d, i, j - 1);
    }
}

proof fn lemma_decimal_digits(n: nat)
    ensures
        decimal(n).len() > 0,
        all_digits(decimal(n)),
        digits_value(decimal(n)) == n,
    decreases n,
{
    let d = if n < 10 { n as int } else { (n % 10) as int };
    assert(digit_char(d) as int == 48 + d);
    if n >= 10 {
        lemma_decimal_digits(n / 10);
        let x = decimal(n / 10);
        assert(decimal(n).drop_last() =~= x);
        assert(decimal(n).last() == digit_char(d));
        assert(digits_value(decimal(n)) == digits_value(x) * 10 + d);
        assert forall|i: int| 0 <= i < decimal(n).len() implies '0' <= #[trigger] decimal(n)[i] <= '9' by {
            if i < x.len() {
                assert(decimal(n)[i] == x[i]);
            }
        }
    } else {
        assert(decimal(n).drop_last() =~= Seq::<char>::empty());
        assert(digits_value(Seq::<char>::empty()) == 0);
        assert(decimal(n).last() == digit_char(d));
    }
}

/// Whether `t` is the decimal numeral of `n`: one or more ASCII digits of
/// value `n`, with no leading zero but for zero itself.
pub open spec fn is_decimal_numeral(t: Seq<char>, n: nat) -> bool {
    &&& t.len() > 0
    &&& all_digits(t)
    &&& digits_value(t) == n
    &&& (t.len() > 1 ==> t[0] != '0')
}

proof fn lemma_decimal_leading_digit(n: nat)
    ensures
        n >= 1 ==> decimal(n)[0] != '0',
        n < 10 ==> decimal(n).len() == 1,
    decreases n,
{
    if n >= 10 {
        lemma_decimal_leading_digit(n / 10);
        lemma_decimal_digits(n / 10);
        assert(decimal(n)[0] == decimal(n / 10)[0]);
    }
}

/// The rendering `decimal(n)` is the decimal numeral of `n`: its digits
/// read back give `n`, and it starts with no zero unless `n` is zero.
pub proof fn law_decimal_is_numeral(n: nat)
    ensures
        is_decimal_numeral(decimal(n), n),
{
    lemma_decimal_digits(n);
    lemma_decimal_leading_digit(n);
}

/// Parsing gives back a rendered number: the decimal rendering of a 16-bit
/// number parses to that number.
pub proof fn law_parse_decimal(n: u16)
    ensures
        parsed_u16(decimal(n as nat)) == Some(n),
{
    lemma_decimal_digits(n as nat);
    assert(decimal(n as nat)[0] != '+');
}

/// Whether an OpenAPI response key names a client or server error status
/// (a code from 400 to 599), whose content is a problem document.
pub fn is_problem_response_code(code: &str) -> (r: bool)
    ensures
        r == match parsed_u16(code@) {
            Some(c) => 400 <= c < 600,
            None => false,
        },
{
    match parse_u16(code) {
        Some(c) => 400 <= c && c < 600,
        None => false,
    }
}

/// Calls `http::StatusCode::from_u16`, which accepts exactly the codes from
/// 100 to 999.
#[verifier::external_body]
fn is_valid_status_code(code: u16) -> (r: bool)
    ensures
        r == (100 <= code < 1000),
{
    salvo::http::StatusCode::from_u16(code).is_ok()
}

/// The status answered by the `status/{method}/{code}` endpoints: the
/// requested code when it is a valid status code, otherwise a bad request.
pub fn requested_status(code: u16) -> (r: Result<u16, ApiError>)
    ensures
        100 <= code < 1000 ==> r == Ok::<u16, ApiError>(code),
        !(100 <= code < 1000) ==> (r matches Err(e) && e.is(
            400,
            "Bad Request"@,
            "status code must be between 100 and 999"@,
        )),
{
    if is_valid_status_code(code) {
        Ok(code)
    } else {
        Err(ApiError::bad_request("status code must be between 100 and 999"))
    }
}

} // verus!
