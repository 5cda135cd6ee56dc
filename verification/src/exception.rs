//! HTTP exceptions and the JSON error body they are answered with.
use vstd::prelude::*;
use vstd::string::*;
use crate::text::{decimal, decimal_string};

verus! {

/// An HTTP error raised by a guard, pipe, interceptor or handler, with
/// optional details (a JSON document, as text).
#[derive(Debug, Clone, PartialEq, Eq)]
pub struct HttpException {
    pub status_code: u16,
    pub message: String,
    pub details: Option<String>,
}

impl HttpException {
    pub fn new(status_code: u16, message: &str) -> (r: Self)
        ensures
            r.status_code == status_code,
            r.message@ == message@,
            r.details is None,
    {
        HttpException { status_code, message: message.to_owned(), details: None }
    }

    /// The exception with `details` attached.
    pub fn with_details(self, details: &str) -> (r: Self)
        ensures
            r.status_code == self.status_code,
            r.message == self.message,
            r.details matches Some(d) && d@ == details@,
    {
        HttpException { details: Some(details.to_owned()), ..self }
    }

    pub fn unprocessable_entity(message: &str) -> (r: Self)
        ensures
            r.status_code == 422,
            r.message@ == message@,
            r.details is None,
    {
        HttpException::new(422, message)
    }

    pub fn bad_request(message: &str) -> (r: Self)
        ensures
            r.status_code == 400,
            r.message@ == message@,
            r.details is None,
    {
        HttpException::new(400, message)
    }

    pub fn forbidden(message: &str) -> (r: Self)
        ensures
            r.status_code == 403,
            r.message@ == message@,
            r.details is None,
    {
        HttpException::new(403, message)
    }

    pub fn not_found(message: &str) -> (r: Self)
        ensures
            r.status_code == 404,
            r.message@ == message@,
            r.details is None,
    {
        HttpException::new(404, message)
    }

    pub fn internal_server_error(message: &str) -> (r: Self)
        ensures
            r.status_code == 500,
            r.message@ == message@,
            r.details is None,
    {
        HttpException::new(500, message)
    }
}

/// The reason phrase that `http::StatusCode::canonical_reason` gives a status
/// code, or `None` for codes it does not know or cannot hold.
pub uninterp spec fn status_reason(code: u16) -> Option<Seq<char>>;

/// `http::StatusCode::from_u16` followed by `canonical_reason`.
/// Its result is named by `status_reason`; the phrases are not stated.
#[verifier::external_body]
fn canonical_reason(code: u16) -> (r: Option<&'static str>)
    ensures
        match r {
            Some(s) => status_reason(code) == Some(s@),
            None => status_reason(code) is None,
        },
{
    http::StatusCode::from_u16(code).ok().and_then(|s| s.canonical_reason())
}

/// Whether `http::StatusCode::from_u16` accepts a code (three digits).
pub open spec fn is_status_code(code: u16) -> bool {
    100 <= code <= 999
}

/// The status a response for `code` is sent with.
pub open spec fn response_status(code: u16) -> u16 {
    if is_status_code(code) {
        code
    } else {
        500
    }
}

/// A lower-case hexadecimal digit for `n` in `0..16`.
pub open spec fn hex_digit(n: int) -> char {
    if n < 10 {
        (48 + n) as char
    } else {
        (87 + n) as char
    }
}

/// How `serde_json` writes one character inside a string literal: quote and
/// backslash behind a backslash, the five short control escapes (`\b`,
/// `\t`, `\n`, `\f`, `\r`), any other character under 0x20 as `\u00`
/// and two lower-case hex digits, everything else as it is.
pub open spec fn json_escaped_char(c: char) -> Seq<char> {
    let n = c as int;
    if n == 34 {
        seq!['\\', '"']
    } else if n == 92 {
        seq!['\\', '\\']
    } else if n == 8 {
        seq!['\\', 'b']
    } else if n == 9 {
        seq!['\\', 't']
    } else if n == 10 {
        seq!['\\', 'n']
    } else if n == 12 {
        seq!['\\', 'f']
    } else if n == 13 {
        seq!['\\', 'r']
    } else if n < 32 {
        seq!['\\', 'u', '0', '0', hex_digit(n / 16), hex_digit(n % 16)]
    } else {
        seq![c]
    }
}

/// The characters of `text`, each escaped as `json_escaped_char` says.
pub open spec fn json_escaped(text: Seq<char>) -> Seq<char>
    decreases text.len(),
{
    if text.len() == 0 {
        Seq::empty()
    } else {
        json_escaped(text.drop_last()) + json_escaped_char(text.last())
    }
}

/// JSON string literal that `serde_json::to_string` writes for a text: the
/// escaped characters between double quotes.
pub open spec fn json_quoted(text: Seq<char>) -> Seq<char> {
    seq!['"'] + json_escaped(text) + seq!['"']
}

/// `serde_json::to_string` on a `str`, which cannot fail for one: the
/// contract states the quoting and escaping of `format_escaped_str`.
#[verifier::external_body]
pub(crate) fn json_string(text: &str) -> (r: String)
    ensures
        r@ == json_quoted(text@),
{
    serde_json::to_string(text).unwrap_or_default()
}

/// The fields of the standard error body after its opening brace:
/// `"error":…,"message":…,"statusCode":…}`, keys in the sorted order that
/// `serde_json` writes them.
pub open spec fn error_fields(status: u16, message: Seq<char>) -> Seq<char> {
    "\"error\":"@ + match status_reason(status) {
        Some(reason) => json_quoted(reason),
        None => "null"@,
    } + ",\"message\":"@ + json_quoted(message) + ",\"statusCode\":"@ + decimal(status as nat) + "}"@
}

/// The standard error body `{"error":…,"message":…,"statusCode":…}`.
pub open spec fn error_body(status: u16, message: Seq<char>) -> Seq<char> {
    "{"@ + error_fields(status, message)
}

/// The error body of an exception: the standard body, led by the details
/// when there are any.
pub open spec fn detailed_error_body(status: u16, message: Seq<char>, details: Option<Seq<char>>) -> Seq<char> {
    match details {
        Some(d) => "{\"details\":"@ + d + ","@ + error_fields(status, message),
        None => error_body(status, message),
    }
}

fn error_fields_json(out: &mut String, status: u16, message: &str)
    ensures
        final(out)@ == old(out)@ + error_fields(status, message@),
{
    out.append("\"error\":");
    match canonical_reason(status) {
        Some(reason) => {
            let q = json_string(reason);
            out.append(q.as_str());
        },
        None => {
            out.append("null");
        },
    }
    out.append(",\"message\":");
    let m = json_string(message);
    out.append(m.as_str());
    out.append(",\"statusCode\":");
    let d = decimal_string(status as u64);
    out.append(d.as_str());
    out.append("}");
    proof {
        reveal_strlit("\"error\":");
        reveal_strlit("null");
        reveal_strlit(",\"message\":");
        reveal_strlit(",\"statusCode\":");
        reveal_strlit("}");
    }
}

pub fn error_body_json(status: u16, message: &str) -> (r: String)
    ensures
        r@ == error_body(status, message@),
{
    let mut out = String::from_str("{");
    error_fields_json(&mut out, status, message);
    proof {
        reveal_strlit("{");
    }
    out
}

/// The error body of `e`, with its details when it has any.
pub fn detailed_error_body_json(e: &HttpException) -> (r: String)
    ensures
        r@ == detailed_error_body(
            e.status_code,
            e.message@,
            match e.details {
                Some(d) => Some(d@),
                None => None,
            },
        ),
{
    match &e.details {
        None => error_body_json(e.status_code, e.message.as_str()),
        Some(d) => {
            let mut out = String::from_str("{\"details\":");
            out.append(d.as_str());
            out.append(",");
            error_fields_json(&mut out, e.status_code, e.message.as_str());
            proof {
                reveal_strlit("{\"details\":");
                reveal_strlit(",");
            }
            out
        },
    }
}

} // verus!
