//! Response formatting and the decisions taken for one connection.
use vstd::prelude::*;
use vstd::string::*;
use vstd::utf8::encode_utf8;
use crate::parser::{lines_view, request_spec, HTTPRequest};

verus! {

/// The reason phrase of a status code; codes outside the table get a fallback.
pub open spec fn reason_spec(status: u16) -> Seq<char> {
    if status == 100 {
        "Continue"@
    } else if status == 200 {
        "Ok"@
    } else if status == 400 {
        "Bad Request"@
    } else if status == 401 {
        "Unauthorized"@
    } else if status == 404 {
        "Not Found"@
    } else if status == 500 {
        "Internal Server Error"@
    } else {
        "Unknown status"@
    }
}

/// Looks up the reason phrase of a status code.
pub fn reason_phrase(status: u16) -> (r: &'static str)
    ensures
        r@ == reason_spec(status),
{
    if status == 100 {
        "Continue"
    } else if status == 200 {
        "Ok"
    } else if status == 400 {
        "Bad Request"
    } else if status == 401 {
        "Unauthorized"
    } else if status == 404 {
        "Not Found"
    } else if status == 500 {
        "Internal Server Error"
    } else {
        "Unknown status"
    }
}

/// The character of a decimal digit.
pub open spec fn digit_char(d: int) -> char {
    if d == 0 {
        '0'
    } else if d == 1 {
        '1'
    } else if d == 2 {
        '2'
    } else if d == 3 {
        '3'
    } else if d == 4 {
        '4'
    } else if d == 5 {
        '5'
    } else if d == 6 {
        '6'
    } else if d == 7 {
        '7'
    } else if d == 8 {
        '8'
    } else {
        '9'
    }
}

/// `n` written in decimal, without leading zeros.
pub open spec fn decimal_spec(n: nat) -> Seq<char>
    decreases n,
{
    if n < 10 {
        seq![digit_char(n as int)]
    } else {
        decimal_spec(n / 10) + seq![digit_char((n % 10) as int)]
    }
}

/// Writes `n` in decimal.
pub fn decimal(n: u64) -> (r: String)
    ensures
        r@ == decimal_spec(n as nat),
    decreases n,
{
    let digits = "0123456789";
    proof {
        reveal_strlit("0123456789");
    }
    let d: usize = (n % 10) as usize;
    let last = digits.substring_char(d, d + 1);
    assert(last@ =~= seq![digit_char(d as int)]);
    if n < 10 {
        last.to_owned()
    } else {
        let mut r = decimal(n / 10);
        r.append(last);
        r
    }
}

/// The status line of a response, with its line break.
pub open spec fn status_line_text(status: u16) -> Seq<char> {
    "HTTP/1.1 "@ + decimal_spec(status as nat) + " "@ + reason_spec(status) + "\r\n"@
}

/// Everything a response holds before its `Date` value.
pub open spec fn response_head(status: u16) -> Seq<char> {
    status_line_text(status) + "Date: "@
}

/// Everything a response holds after its `Date` value: the remaining headers,
/// with the body's length in bytes, a blank line and the body.
pub open spec fn response_tail(status: u16, body: Seq<char>, content_type: Seq<char>) -> Seq<char> {
    "\r\n"@ + "Content-Type: "@ + content_type + "\r\n"@ + "Content-Length: "@ + decimal_spec(
        encode_utf8(body).len(),
    ) + "\r\n"@ + "Connection: close\r\n"@ + "\r\n"@ + body
}

/// The full text of a response.
pub open spec fn response_text(
    status: u16,
    body: Seq<char>,
    content_type: Seq<char>,
    date: Seq<char>,
) -> Seq<char> {
    response_head(status) + date + response_tail(status, body, content_type)
}

/// Formats a response with the given `Date` value.
pub fn format_response(status: u16, body: &str, content_type: &str, date: &str) -> (r: String)
    ensures
        r@ == response_text(status, body@, content_type@, date@),
{
    let mut r = String::new();
    r.append("HTTP/1.1 ");
    r.append(decimal(status as u64).as_str());
    r.append(" ");
    r.append(reason_phrase(status));
    r.append("\r\n");
    r.append("Date: ");
    r.append(date);
    r.append("\r\n");
    r.append("Content-Type: ");
    r.append(content_type);
    r.append("\r\n");
    r.append("Content-Length: ");
    let body_len: usize = body.as_bytes().len();
    r.append(decimal(body_len as u64).as_str());
    r.append("\r\n");
    r.append("Connection: close\r\n");
    r.append("\r\n");
    r.append(body);
    assert(r@ =~= response_text(status, body@, content_type@, date@));
    r
}

/// The IMF-fixdate (`Sun, 06 Nov 1994 08:49:37 GMT`) of a time given in
/// seconds since the Unix epoch.
pub uninterp spec fn http_date_of(unix_secs: u64) -> Seq<char>;

/// The first second that the date format cannot write (the year 10000).
pub const DATE_LIMIT: u64 = 253402300800;

/// Relies on `httpdate::fmt_http_date`, which formats a time as an IMF-fixdate
/// and panics on times from the year 10000 on.
#[verifier::external_body]
fn http_date(unix_secs: u64) -> (r: String)
    requires
        unix_secs < DATE_LIMIT,
    ensures
        r@ == http_date_of(unix_secs),
{
    httpdate::fmt_http_date(std::time::UNIX_EPOCH + std::time::Duration::from_secs(unix_secs))
}

/// Formats a response dated `unix_secs` seconds after the Unix epoch.
pub fn build_response(status: u16, body: &str, content_type: &str, unix_secs: u64) -> (r: String)
    requires
        unix_secs < DATE_LIMIT,
    ensures
        r@ == response_text(status, body@, content_type@, http_date_of(unix_secs)),
{
    let date = http_date(unix_secs);
    format_response(status, body, content_type, date.as_str())
}

/// What the storage lookup for a request's method and path gave.
#[derive(Debug, Clone)]
pub enum LookupOutcome {
    /// A stored body was found.
    Found(String),
    /// Nothing is stored under that method and path.
    NotFound,
    /// The lookup itself failed.
    Failed,
}

/// The status that a lookup outcome is answered with.
pub open spec fn outcome_status(o: LookupOutcome) -> u16 {
    match o {
        LookupOutcome::Found(_) => 200,
        LookupOutcome::NotFound => 404,
        LookupOutcome::Failed => 500,
    }
}

/// The body that a lookup outcome is answered with.
pub open spec fn outcome_body(o: LookupOutcome) -> Seq<char> {
    match o {
        LookupOutcome::Found(b) => b@,
        LookupOutcome::NotFound => "Not found"@,
        LookupOutcome::Failed => "Internal server error"@,
    }
}

/// The content type of every response this server sends.
pub open spec fn content_type_spec() -> Seq<char> {
    "text/html"@
}

/// The status and body that answer a lookup outcome.
pub fn status_and_body(outcome: LookupOutcome) -> (r: (u16, String))
    ensures
        r.0 == outcome_status(outcome),
        r.1@ == outcome_body(outcome),
{
    match outcome {
        LookupOutcome::Found(b) => (200, b),
        LookupOutcome::NotFound => (404, "Not found".to_owned()),
        LookupOutcome::Failed => (500, "Internal server error".to_owned()),
    }
}

/// The response to a request whose lookup gave `outcome`, dated `unix_secs`.
pub fn create_response(outcome: LookupOutcome, unix_secs: u64) -> (r: String)
    requires
        unix_secs < DATE_LIMIT,
    ensures
        r@ == response_text(
            outcome_status(outcome),
            outcome_body(outcome),
            content_type_spec(),
            http_date_of(unix_secs),
        ),
{
    let (status, body) = status_and_body(outcome);
    build_response(status, body.as_str(), "text/html", unix_secs)
}

/// What to do with a connection once its request has been read.
#[derive(Debug, Clone)]
pub enum ConnectionAction {
    /// The request could not be parsed: close the connection without a response.
    Close,
    /// Look up the stored body for this method and path, then answer with
    /// `create_response`.
    Lookup { method: String, uri: String },
}

/// Decides what to do with the lines read from a connection.
pub fn handle_request(lines: &Vec<String>) -> (r: ConnectionAction)
    ensures
        match request_spec(lines_view(lines@)) {
            Err(_) => r is Close,
            Ok((rl, _, _)) => match r {
                ConnectionAction::Lookup { method, uri } => method@ == rl.0 && uri@ == rl.1,
                ConnectionAction::Close => false,
            },
        },
{
    match HTTPRequest::from_lines(lines) {
        Err(_) => ConnectionAction::Close,
        Ok(req) => ConnectionAction::Lookup {
            method: req.request_line.method,
            uri: req.request_line.uri,
        },
    }
}

/// Every character of a decimal numeral is a digit, and there is at least one.
pub proof fn lemma_decimal_digits(n: nat)
    ensures
        decimal_spec(n).len() > 0,
        forall|i: int| 0 <= i < decimal_spec(n).len() ==> '0' <= #[trigger] decimal_spec(n)[i] <= '9',
    decreases n,
{
    if n >= 10 {
        lemma_decimal_digits(n / 10);
        let s = decimal_spec(n);
        let p = decimal_spec(n / 10);
        assert forall|i: int| 0 <= i < s.len() implies '0' <= #[trigger] s[i] <= '9' by {
            if i < p.len() {
                assert(s[i] == p[i]);
            }
        }
    }
}

/// Two responses built from the same status, body and content type are the
/// same text but for their `Date` values: they share everything before the date
/// and everything after it.
pub proof fn lemma_response_varies_only_in_date(
    status: u16,
    body: Seq<char>,
    content_type: Seq<char>,
    d1: Seq<char>,
    d2: Seq<char>,
)
    ensures
        ({
            let r1 = response_text(status, body, content_type, d1);
            let r2 = response_text(status, body, content_type, d2);
            let h = response_head(status).len() as int;
            &&& r1.subrange(0, h) == r2.subrange(0, h)
            &&& r1.subrange(h, h + d1.len()) == d1
            &&& r2.subrange(h, h + d2.len()) == d2
            &&& r1.subrange(h + d1.len(), r1.len() as int) == r2.subrange(
                h + d2.len(),
                r2.len() as int,
            )
        }),
{
    let r1 = response_text(status, body, content_type, d1);
    let r2 = response_text(status, body, content_type, d2);
    let h = response_head(status).len() as int;
    let t = response_tail(status, body, content_type);
    assert(r1.subrange(0, h) =~= response_head(status));
    assert(r2.subrange(0, h) =~= response_head(status));
    assert(r1.subrange(h, h + d1.len()) =~= d1);
    assert(r2.subrange(h, h + d2.len()) =~= d2);
    assert(r1.subrange(h + d1.len(), r1.len() as int) =~= t);
    assert(r2.subrange(h + d2.len(), r2.len() as int) =~= t);
}

/// A status code outside the table still gives a status line of the form
/// `HTTP/1.1 <digits> Unknown status` followed by CRLF, at the start of the response.
pub proof fn lemma_unknown_status_line(
    status: u16,
    body: Seq<char>,
    content_type: Seq<char>,
    date: Seq<char>,
)
    requires
        status != 100 && status != 200 && status != 400 && status != 401 && status != 404
            && status != 500,
    ensures
        reason_spec(status) == "Unknown status"@,
        status_line_text(status) == "HTTP/1.1 "@ + decimal_spec(status as nat) + " "@
            + "Unknown status"@ + "\r\n"@,
        decimal_spec(status as nat).len() > 0,
        forall|i: int|
            0 <= i < decimal_spec(status as nat).len() ==> '0' <= #[trigger] decimal_spec(
                status as nat,
            )[i] <= '9',
        response_text(status, body, content_type, date).subrange(
            0,
            status_line_text(status).len() as int,
        ) == status_line_text(status),
{
    lemma_decimal_digits(status as nat);
    assert(response_text(status, body, content_type, date).subrange(
        0,
        status_line_text(status).len() as int,
    ) =~= status_line_text(status));
}

} // verus!
