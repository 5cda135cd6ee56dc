//! Responses: the response value, its builder, and the helpers that frame
//! downloads, redirects, buffered streams and server-sent events.
//!
//! A response carries a status code, a header map of canonical names, and a
//! body. Building a response fills in the body's default `content-type`
//! unless one was set explicitly.
use vstd::prelude::*;
use vstd::string::*;
use vstd::utf8::*;
use crate::body::{Body, BodyView, Html, Text};
use crate::exception::{detailed_error_body, detailed_error_body_json, error_body, error_body_json, is_status_code, response_status, HttpException};
use crate::headers::{canonical_header_name, lookup_header, valid_value, HeaderMap, HeaderValue};
use crate::text::{chars_of, decimal, decimal_string, drop_suffix, split, split_chars, string_of, string_push, views};

verus! {

/// The abstract value of a response.
pub struct ResponseView {
    pub status: u16,
    pub headers: Seq<(Seq<char>, Seq<u8>)>,
    pub body: BodyView,
}

impl ResponseView {
    /// The value stored under the canonical header name `name`.
    pub open spec fn header(self, name: Seq<char>) -> Option<Seq<u8>> {
        lookup_header(self.headers, name)
    }
}

/// The header `name` after the response is built: the body's default
/// `content-type` fills in when none was set.
pub open spec fn built_header(headers: Seq<(Seq<char>, Seq<u8>)>, body: BodyView, name: Seq<char>) -> Option<
    Seq<u8>,
> {
    if name == "content-type"@ && lookup_header(headers, name) is None && body.content_type() is Some {
        Some(encode_utf8(body.content_type()->0))
    } else {
        lookup_header(headers, name)
    }
}

/// The header map after `with_header(name, value)`: the value replaces the
/// canonical name's earlier one, when the name and the value are valid.
pub open spec fn header_after_insert(
    before: Seq<(Seq<char>, Seq<u8>)>,
    name: Seq<u8>,
    value: Seq<u8>,
    k: Seq<char>,
) -> Option<Seq<u8>> {
    if canonical_header_name(name) is Some && valid_value(value) && Some(k) == canonical_header_name(
        name,
    ) {
        Some(value)
    } else {
        lookup_header(before, k)
    }
}

/// Store a header under a name the library knows to be canonical.
fn set_known_header(headers: &mut HeaderMap, name: &str, value: &str)
    ensures
        forall|k: Seq<char>|
            #[trigger] final(headers).lookup(k) == if k == name@ {
                Some(value.spec_bytes())
            } else {
                old(headers).lookup(k)
            },
{
    headers.insert_canonical(name.to_owned(), HeaderValue::from_static(value));
}

/// Response wrapper used by the HTTP layer.
#[derive(Debug, Clone)]
pub struct NivasaResponse {
    status: u16,
    headers: HeaderMap,
    body: Body,
}

impl View for NivasaResponse {
    type V = ResponseView;

    closed spec fn view(&self) -> ResponseView {
        ResponseView { status: self.status, headers: self.headers@, body: self.body@ }
    }
}

/// Builder for `NivasaResponse`: status `200`, no headers and an empty body
/// until set.
#[derive(Debug, Clone)]
pub struct NivasaResponseBuilder {
    status: u16,
    headers: HeaderMap,
    body: Body,
}

impl View for NivasaResponseBuilder {
    type V = ResponseView;

    closed spec fn view(&self) -> ResponseView {
        ResponseView { status: self.status, headers: self.headers@, body: self.body@ }
    }
}

impl Default for NivasaResponseBuilder {
    fn default() -> (r: Self)
        ensures
            r@.status == 200,
            r@.headers.len() == 0,
            r@.body == BodyView::Empty,
    {
        NivasaResponseBuilder { status: 200, headers: HeaderMap::new(), body: Body::Empty }
    }
}

impl NivasaResponseBuilder {
    /// Set the response status code.
    pub fn status(self, status: u16) -> (r: Self)
        requires
            is_status_code(status),
        ensures
            r@ == (ResponseView { status, ..self@ }),
    {
        NivasaResponseBuilder { status, ..self }
    }

    /// Add or replace a response header; an invalid name or value is ignored.
    pub fn header(self, name: &str, value: &str) -> (r: Self)
        ensures
            r@.status == self@.status,
            r@.body == self@.body,
            forall|k: Seq<char>|
                #[trigger] r@.header(k) == header_after_insert(
                    self@.headers,
                    name.spec_bytes(),
                    value.spec_bytes(),
                    k,
                ),
    {
        let NivasaResponseBuilder { status, headers, body } = self;
        let mut headers = headers;
        let ghost before = headers;
        let _ = headers.insert(name, value);
        let b = NivasaResponseBuilder { status, headers, body };
        assert forall|k: Seq<char>|
            #[trigger] b@.header(k) == header_after_insert(
                before@,
                name.spec_bytes(),
                value.spec_bytes(),
                k,
            ) by {
            assert(headers.lookup(k) == b@.header(k));
            assert(before.lookup(k) == lookup_header(before@, k));
        }
        b
    }

    /// Set the body and build the response.
    pub fn body(self, body: Body) -> (r: NivasaResponse)
        ensures
            r@.status == self@.status,
            r@.body == body@,
            forall|k: Seq<char>| #[trigger] r@.header(k) == built_header(self@.headers, body@, k),
    {
        NivasaResponseBuilder { body, ..self }.build()
    }

    /// Finalize the response, adding the body's default `content-type` when
    /// none was set.
    pub fn build(self) -> (r: NivasaResponse)
        ensures
            r@.status == self@.status,
            r@.body == self@.body,
            forall|k: Seq<char>| #[trigger] r@.header(k) == built_header(self@.headers, self@.body, k),
    {
        let NivasaResponseBuilder { status, headers, body } = self;
        let mut headers = headers;
        let ct_name = String::from_str("content-type");
        proof {
            reveal_strlit("content-type");
        }
        let ghost before = headers;
        let present = headers.get_canonical(&ct_name).is_some();
        if !present {
            match body.content_type() {
                Some(ct) => set_known_header(&mut headers, "content-type", ct),
                None => {},
            }
        }
        let r = NivasaResponse { status, headers, body };
        assert forall|k: Seq<char>|
            #[trigger] r@.header(k) == built_header(before@, body@, k) by {
            assert(headers.lookup(k) == r@.header(k));
            assert(before.lookup(k) == lookup_header(before@, k));
            assert(before.lookup("content-type"@) == lookup_header(before@, "content-type"@));
        }
        r
    }
}

/// `filename` with each backslash and double quote escaped by a backslash.
pub open spec fn escape_filename(s: Seq<char>) -> Seq<char>
    decreases s.len(),
{
    if s.len() == 0 {
        Seq::empty()
    } else {
        let c = s.last();
        escape_filename(s.drop_last()) + if c == '\\' || c == '"' {
            seq!['\\', c]
        } else {
            seq![c]
        }
    }
}

/// The `content-disposition` value of a download named `filename`.
pub open spec fn attachment_disposition(filename: Seq<char>) -> Seq<char> {
    "attachment; filename=\""@ + escape_filename(filename) + "\""@
}

fn escape_content_disposition_filename(filename: &str) -> (r: String)
    ensures
        r@ == escape_filename(filename@),
{
    let chars = chars_of(filename);
    let mut out = String::new();
    let mut i: usize = 0;
    while i < chars.len()
        invariant
            i <= chars@.len(),
            chars@ == filename@,
            out@ == escape_filename(chars@.take(i as int)),
        decreases chars@.len() - i,
    {
        let ch = chars[i];
        let ghost before = out@;
        if ch == '\\' || ch == '"' {
            string_push(&mut out, '\\');
        }
        string_push(&mut out, ch);
        assert(chars@.take(i + 1).drop_last() =~= chars@.take(i as int));
        assert(out@ =~= escape_filename(chars@.take(i + 1)));
        i += 1;
    }
    assert(chars@.take(chars@.len() as int) =~= chars@);
    out
}

impl NivasaResponse {
    /// A response with `status` and `body`, and the body's default `content-type`.
    pub fn new(status: u16, body: Body) -> (r: Self)
        requires
            is_status_code(status),
        ensures
            r@.status == status,
            r@.body == body@,
            forall|k: Seq<char>| #[trigger] r@.header(k) == built_header(Seq::empty(), body@, k),
    {
        NivasaResponse::builder().status(status).body(body)
    }

    /// A builder: status `200`, no headers, empty body.
    pub fn builder() -> (r: NivasaResponseBuilder)
        ensures
            r@.status == 200,
            r@.headers.len() == 0,
            r@.body == BodyView::Empty,
    {
        NivasaResponseBuilder::default()
    }

    /// An OK text response.
    pub fn text(text: &str) -> (r: Self)
        ensures
            r@.status == 200,
            r@.body == BodyView::Text(text@),
            forall|k: Seq<char>|
                #[trigger] r@.header(k) == built_header(Seq::empty(), BodyView::Text(text@), k),
    {
        NivasaResponse::new(200, Body::text(text))
    }

    /// An OK HTML response.
    pub fn html(html: &str) -> (r: Self)
        ensures
            r@.status == 200,
            r@.body == BodyView::Html(html@),
            forall|k: Seq<char>|
                #[trigger] r@.header(k) == built_header(Seq::empty(), BodyView::Html(html@), k),
    {
        NivasaResponse::new(200, Body::html(html))
    }

    /// An OK JSON response holding the serialized document `json`.
    pub fn json(json: &str) -> (r: Self)
        ensures
            r@.status == 200,
            r@.body == BodyView::Json(json@),
            forall|k: Seq<char>|
                #[trigger] r@.header(k) == built_header(Seq::empty(), BodyView::Json(json@), k),
    {
        NivasaResponse::new(200, Body::json(json))
    }

    /// An OK raw byte response.
    pub fn bytes(bytes: Vec<u8>) -> (r: Self)
        ensures
            r@.status == 200,
            r@.body == BodyView::Bytes(bytes@),
            forall|k: Seq<char>|
                #[trigger] r@.header(k) == built_header(Seq::empty(), BodyView::Bytes(bytes@), k),
    {
        NivasaResponse::new(200, Body::bytes(bytes))
    }

    /// An OK attachment response: the bytes, with a `content-disposition`
    /// naming `filename` (quotes and backslashes escaped). The disposition is
    /// left out when it is not a valid header value.
    pub fn download(filename: &str, bytes: Vec<u8>) -> (r: Self)
        ensures
            r@.status == 200,
            r@.body == BodyView::Bytes(bytes@),
            forall|k: Seq<char>|
                #[trigger] r@.header(k) == if k == "content-disposition"@ && valid_value(
                    encode_utf8(attachment_disposition(filename@)),
                ) {
                    Some(encode_utf8(attachment_disposition(filename@)))
                } else {
                    built_header(Seq::empty(), BodyView::Bytes(bytes@), k)
                },
    {
        let mut disposition = String::from_str("attachment; filename=\"");
        let escaped = escape_content_disposition_filename(filename);
        disposition.append(escaped.as_str());
        disposition.append("\"");
        proof {
            reveal_strlit("attachment; filename=\"");
            reveal_strlit("\"");
        }
        assert(disposition@ == attachment_disposition(filename@));
        let mut r = NivasaResponse::bytes(bytes);
        r.set_known_valid_header("content-disposition", disposition.as_str());
        r
    }

    /// Store a fixed value of the library under the canonical `name`.
    pub(crate) fn set_known_header(&mut self, name: &str, value: &str)
        ensures
            final(self)@.status == old(self)@.status,
            final(self)@.body == old(self)@.body,
            forall|k: Seq<char>|
                #[trigger] final(self)@.header(k) == if k == name@ {
                    Some(value.spec_bytes())
                } else {
                    old(self)@.header(k)
                },
    {
        let ghost before = self.headers;
        let mut headers = HeaderMap::new();
        std::mem::swap(&mut headers, &mut self.headers);
        set_known_header(&mut headers, name, value);
        self.headers = headers;
        assert forall|k: Seq<char>|
            #[trigger] self@.header(k) == if k == name@ {
                Some(value.spec_bytes())
            } else {
                lookup_header(before@, k)
            } by {
            assert(self.headers.lookup(k) == self@.header(k));
            assert(before.lookup(k) == lookup_header(before@, k));
        }
    }

    /// Store `value` under the canonical `name` when it is a valid value.
    pub(crate) fn set_known_valid_header(&mut self, name: &str, value: &str)
        ensures
            final(self)@.status == old(self)@.status,
            final(self)@.body == old(self)@.body,
            forall|k: Seq<char>|
                #[trigger] final(self)@.header(k) == if k == name@ && valid_value(value.spec_bytes()) {
                    Some(value.spec_bytes())
                } else {
                    old(self)@.header(k)
                },
    {
        let ghost before = self.headers;
        let mut headers = HeaderMap::new();
        std::mem::swap(&mut headers, &mut self.headers);
        match HeaderValue::from_str(value) {
            Some(v) => headers.insert_canonical(name.to_owned(), v),
            None => {},
        }
        self.headers = headers;
        assert forall|k: Seq<char>|
            #[trigger] self@.header(k) == if k == name@ && valid_value(value.spec_bytes()) {
                Some(value.spec_bytes())
            } else {
                lookup_header(before@, k)
            } by {
            assert(self.headers.lookup(k) == self@.header(k));
            assert(before.lookup(k) == lookup_header(before@, k));
        }
    }

    /// The response status.
    pub fn status(&self) -> (r: u16)
        ensures
            r == self@.status,
    {
        self.status
    }

    /// Replace the response status.
    pub fn set_status(&mut self, status: u16)
        requires
            is_status_code(status),
        ensures
            final(self)@ == (ResponseView { status, ..old(self)@ }),
    {
        self.status = status;
    }

    /// The response headers.
    pub fn headers(&self) -> (r: &HeaderMap)
        ensures
            r@ == self@.headers,
    {
        &self.headers
    }

    /// The response body.
    pub fn body(&self) -> (r: &Body)
        ensures
            r@ == self@.body,
    {
        &self.body
    }

    /// The status, headers and body.
    pub fn into_parts(self) -> (r: (u16, HeaderMap, Body))
        ensures
            r.0 == self@.status,
            r.1@ == self@.headers,
            r.2@ == self@.body,
    {
        (self.status, self.headers, self.body)
    }

    /// A response from its parts, as they are.
    pub fn from_parts(status: u16, headers: HeaderMap, body: Body) -> (r: Self)
        ensures
            r@ == (ResponseView { status, headers: headers@, body: body@ }),
    {
        NivasaResponse { status, headers, body }
    }

    /// Add or replace a header; an invalid name or value is ignored.
    pub fn with_header(self, name: &str, value: &str) -> (r: Self)
        ensures
            r@.status == self@.status,
            r@.body == self@.body,
            forall|k: Seq<char>|
                #[trigger] r@.header(k) == header_after_insert(
                    self@.headers,
                    name.spec_bytes(),
                    value.spec_bytes(),
                    k,
                ),
    {
        let NivasaResponse { status, headers, body } = self;
        let mut headers = headers;
        let ghost before = headers;
        let _ = headers.insert(name, value);
        let r = NivasaResponse { status, headers, body };
        assert forall|k: Seq<char>|
            #[trigger] r@.header(k) == header_after_insert(
                before@,
                name.spec_bytes(),
                value.spec_bytes(),
                k,
            ) by {
            assert(headers.lookup(k) == r@.header(k));
            assert(before.lookup(k) == lookup_header(before@, k));
        }
        r
    }

    /// A redirect with an empty body and a `location` header (left out when
    /// `location` is not a valid header value).
    pub fn redirect(status: u16, location: &str) -> (r: Self)
        requires
            is_status_code(status),
        ensures
            r@.status == status,
            r@.body == BodyView::Empty,
            forall|k: Seq<char>|
                #[trigger] r@.header(k) == if k == "location"@ && valid_value(location.spec_bytes()) {
                    Some(location.spec_bytes())
                } else {
                    None
                },
    {
        let mut r = NivasaResponse::new(status, Body::empty());
        r.set_known_valid_header("location", location);
        proof {
            reveal_strlit("location");
            reveal_strlit("content-type");
        }
        r
    }
}

/// `value` with each carriage return and line feed replaced by a space.
pub open spec fn sanitize_line(s: Seq<char>) -> Seq<char> {
    Seq::new(s.len(), |i: int| if s[i] == '\r' || s[i] == '\n' { ' ' } else { s[i] })
}

/// An event's name and id cannot break its frame: once sanitized they hold
/// no line feed or carriage return, and keep their length.
pub proof fn lemma_sanitized_lines_hold_no_breaks(s: Seq<char>)
    ensures
        sanitize_line(s).len() == s.len(),
        forall|i: int| 0 <= i < s.len() ==> #[trigger] sanitize_line(s)[i] != '\n' && sanitize_line(s)[i] != '\r',
{
}

/// One SSE field line: the name (with its `: `), the value, a line feed.
pub open spec fn sse_field(name: Seq<char>, value: Seq<char>) -> Seq<char> {
    name + value + seq!['\n']
}

/// One field line per line of a value, each without a trailing carriage return.
pub open spec fn sse_lines(name: Seq<char>, lines: Seq<Seq<char>>) -> Seq<char>
    decreases lines.len(),
{
    if lines.len() == 0 {
        Seq::empty()
    } else {
        sse_lines(name, lines.drop_last()) + sse_field(name, drop_suffix(lines.last(), seq!['\r']))
    }
}

/// The field lines of a value that may span several lines.
pub open spec fn sse_multiline(name: Seq<char>, value: Seq<char>) -> Seq<char> {
    sse_lines(name, split(value, seq!['\n']))
}

/// The field lines of several values, in order.
pub open spec fn sse_multiline_all(name: Seq<char>, values: Seq<Seq<char>>) -> Seq<char>
    decreases values.len(),
{
    if values.len() == 0 {
        Seq::empty()
    } else {
        sse_multiline_all(name, values.drop_last()) + sse_multiline(name, values.last())
    }
}

/// The abstract value of an SSE event.
pub struct SseEventView {
    pub event: Option<Seq<char>>,
    pub id: Option<Seq<char>>,
    pub retry: Option<u64>,
    pub data: Seq<Seq<char>>,
    pub comment: Seq<Seq<char>>,
}

/// The frame of one event: `event:`, `id:` and `retry:` lines when set
/// (names and ids kept to one line), the comment lines, the data lines, and
/// the blank line that ends the frame.
pub open spec fn render_event(e: SseEventView) -> Seq<char> {
    (match e.event {
        Some(v) => sse_field("event: "@, sanitize_line(v)),
        None => Seq::empty(),
    }) + (match e.id {
        Some(v) => sse_field("id: "@, sanitize_line(v)),
        None => Seq::empty(),
    }) + (match e.retry {
        Some(r) => sse_field("retry: "@, decimal(r as nat)),
        None => Seq::empty(),
    }) + sse_multiline_all(": "@, e.comment) + sse_multiline_all("data: "@, e.data) + seq!['\n']
}

/// The frames of several events, in order.
pub open spec fn render_events(events: Seq<SseEventView>) -> Seq<char>
    decreases events.len(),
{
    if events.len() == 0 {
        Seq::empty()
    } else {
        render_events(events.drop_last()) + render_event(events.last())
    }
}

pub open spec fn strings_view(v: Seq<String>) -> Seq<Seq<char>> {
    v.map_values(|s: String| s@)
}

fn sanitize_sse_single_line(value: &str) -> (r: String)
    ensures
        r@ == sanitize_line(value@),
{
    let chars = chars_of(value);
    let mut out = String::new();
    let mut i: usize = 0;
    while i < chars.len()
        invariant
            i <= chars@.len(),
            chars@ == value@,
            out@ == sanitize_line(chars@.take(i as int)),
        decreases chars@.len() - i,
    {
        let ch = chars[i];
        if ch == '\r' || ch == '\n' {
            string_push(&mut out, ' ');
        } else {
            string_push(&mut out, ch);
        }
        i += 1;
        assert(out@ =~= sanitize_line(chars@.take(i as int)));
    }
    assert(chars@.take(chars@.len() as int) =~= chars@);
    out
}

fn push_sse_field(body: &mut String, name: &str, value: &str)
    ensures
        final(body)@ == old(body)@ + sse_field(name@, value@),
{
    body.append(name);
    body.append(value);
    string_push(body, '\n');
    assert(body@ =~= old(body)@ + sse_field(name@, value@));
}

fn push_sse_multiline_field(body: &mut String, name: &str, value: &str)
    ensures
        final(body)@ == old(body)@ + sse_multiline(name@, value@),
{
    let chars = chars_of(value);
    let sep: Vec<char> = vec!['\n'];
    assert(sep@ =~= seq!['\n']);
    let lines = split_chars(chars.as_slice(), sep.as_slice());
    let ghost pieces = views(lines@);
    let mut i: usize = 0;
    while i < lines.len()
        invariant
            i <= lines@.len(),
            pieces == views(lines@),
            pieces == split(value@, seq!['\n']),
            body@ == old(body)@ + sse_lines(name@, pieces.take(i as int)),
        decreases lines@.len() - i,
    {
        let line = &lines[i];
        let n = line.len();
        let ghost l = line@;
        assert(pieces[i as int] == l);
        let stripped = if n > 0 && line[n - 1] == '\r' {
            assert(l.skip(n - 1) =~= seq!['\r']);
            crate::text::copy_range(line.as_slice(), 0, n - 1)
        } else {
            assert(!crate::text::ends_with(l, seq!['\r'])) by {
                if n > 0 {
                    assert(l.skip(n - 1)[0] == l[n - 1]);
                }
            }
            crate::text::copy_all(line.as_slice())
        };
        assert(stripped@ =~= drop_suffix(l, seq!['\r']));
        let text = string_of(stripped.as_slice());
        let ghost before = body@;
        body.append(name);
        body.append(text.as_str());
        string_push(body, '\n');
        assert(pieces.take(i + 1).drop_last() =~= pieces.take(i as int));
        assert(body@ =~= before + sse_field(name@, drop_suffix(l, seq!['\r'])));
        i += 1;
    }
    assert(pieces.take(lines@.len() as int) =~= pieces);
}

fn push_sse_multiline_all(body: &mut String, name: &str, values: &Vec<String>)
    ensures
        final(body)@ == old(body)@ + sse_multiline_all(name@, strings_view(values@)),
{
    let ghost vs = strings_view(values@);
    let mut i: usize = 0;
    while i < values.len()
        invariant
            i <= values@.len(),
            vs == strings_view(values@),
            body@ == old(body)@ + sse_multiline_all(name@, vs.take(i as int)),
        decreases values@.len() - i,
    {
        let ghost before = body@;
        push_sse_multiline_field(body, name, values[i].as_str());
        assert(vs.take(i + 1).drop_last() =~= vs.take(i as int));
        assert(vs[i as int] == values@[i as int]@);
        assert(body@ =~= old(body)@ + sse_multiline_all(name@, vs.take(i + 1)));
        i += 1;
    }
    assert(vs.take(values@.len() as int) =~= vs);
}

/// Buffered server-sent event.
#[derive(Debug, Clone, PartialEq, Eq)]
pub struct SseEvent {
    event: Option<String>,
    id: Option<String>,
    retry: Option<u64>,
    data: Vec<String>,
    comment: Vec<String>,
}

impl View for SseEvent {
    type V = SseEventView;

    closed spec fn view(&self) -> SseEventView {
        SseEventView {
            event: match self.event {
                Some(e) => Some(e@),
                None => None,
            },
            id: match self.id {
                Some(e) => Some(e@),
                None => None,
            },
            retry: self.retry,
            data: strings_view(self.data@),
            comment: strings_view(self.comment@),
        }
    }
}

impl SseEvent {
    /// An event with a single data value.
    pub fn data(data: &str) -> (r: Self)
        ensures
            r@ == (SseEventView {
                event: None,
                id: None,
                retry: None,
                data: seq![data@],
                comment: Seq::empty(),
            }),
    {
        let r = SseEvent {
            event: None,
            id: None,
            retry: None,
            data: vec![data.to_owned()],
            comment: Vec::new(),
        };
        assert(r@.data =~= seq![data@]);
        assert(r@.comment =~= Seq::<Seq<char>>::empty());
        r
    }

    /// A comment-only frame.
    pub fn comment(comment: &str) -> (r: Self)
        ensures
            r@ == (SseEventView {
                event: None,
                id: None,
                retry: None,
                data: Seq::empty(),
                comment: seq![comment@],
            }),
    {
        let r = SseEvent {
            event: None,
            id: None,
            retry: None,
            data: Vec::new(),
            comment: vec![comment.to_owned()],
        };
        assert(r@.comment =~= seq![comment@]);
        assert(r@.data =~= Seq::<Seq<char>>::empty());
        r
    }

    /// Set the event name.
    pub fn event(self, event: &str) -> (r: Self)
        ensures
            r@ == (SseEventView { event: Some(event@), ..self@ }),
    {
        SseEvent { event: Some(event.to_owned()), ..self }
    }

    /// Set the event identifier.
    pub fn id(self, id: &str) -> (r: Self)
        ensures
            r@ == (SseEventView { id: Some(id@), ..self@ }),
    {
        SseEvent { id: Some(id.to_owned()), ..self }
    }

    /// Set the reconnection delay, in milliseconds.
    pub fn retry(self, retry_ms: u64) -> (r: Self)
        ensures
            r@ == (SseEventView { retry: Some(retry_ms), ..self@ }),
    {
        SseEvent { retry: Some(retry_ms), ..self }
    }

    /// Append another data value.
    pub fn data_line(self, data: &str) -> (r: Self)
        ensures
            r@ == (SseEventView { data: self@.data.push(data@), ..self@ }),
    {
        let mut r = self;
        r.data.push(data.to_owned());
        assert(r@.data =~= self@.data.push(data@));
        r
    }

    /// Append this event's frame to `body`.
    pub fn render(&self, body: &mut String)
        ensures
            final(body)@ == old(body)@ + render_event(self@),
    {
        proof {
            reveal_strlit("event: ");
            reveal_strlit("id: ");
            reveal_strlit("retry: ");
            reveal_strlit(": ");
            reveal_strlit("data: ");
        }
        let ghost e = self@;
        let ghost p0 = body@;
        match &self.event {
            Some(event) => {
                let v = sanitize_sse_single_line(event.as_str());
                push_sse_field(body, "event: ", v.as_str());
            },
            None => {},
        }
        let ghost p1 = body@;
        match &self.id {
            Some(id) => {
                let v = sanitize_sse_single_line(id.as_str());
                push_sse_field(body, "id: ", v.as_str());
            },
            None => {},
        }
        let ghost p2 = body@;
        match self.retry {
            Some(retry) => {
                let v = decimal_string(retry);
                push_sse_field(body, "retry: ", v.as_str());
            },
            None => {},
        }
        let ghost p3 = body@;
        push_sse_multiline_all(body, ": ", &self.comment);
        let ghost p4 = body@;
        push_sse_multiline_all(body, "data: ", &self.data);
        let ghost p5 = body@;
        string_push(body, '\n');
        assert(body@ =~= p0 + render_event(e));
    }
}

/// Buffered SSE response body: one or more framed events.
#[derive(Debug, Clone, PartialEq, Eq)]
pub struct Sse {
    events: Vec<SseEvent>,
}

pub open spec fn events_view(v: Seq<SseEvent>) -> Seq<SseEventView> {
    v.map_values(|e: SseEvent| e@)
}

impl View for Sse {
    type V = Seq<SseEventView>;

    closed spec fn view(&self) -> Seq<SseEventView> {
        events_view(self.events@)
    }
}

impl Sse {
    /// A stream of the given events.
    pub fn new(events: Vec<SseEvent>) -> (r: Self)
        ensures
            r@ == events_view(events@),
    {
        Sse { events }
    }

    /// Append an event.
    pub fn push(self, event: SseEvent) -> (r: Self)
        ensures
            r@ == self@.push(event@),
    {
        let mut r = self;
        r.events.push(event);
        assert(r@ =~= self@.push(event@));
        r
    }

    /// The framed text of all events.
    pub fn into_body(self) -> (r: String)
        ensures
            r@ == render_events(self@),
    {
        let mut body = String::new();
        let ghost evs = self@;
        let mut i: usize = 0;
        while i < self.events.len()
            invariant
                i <= self.events@.len(),
                evs == events_view(self.events@),
                body@ == render_events(evs.take(i as int)),
            decreases self.events@.len() - i,
        {
            self.events[i].render(&mut body);
            assert(evs.take(i + 1).drop_last() =~= evs.take(i as int));
            assert(evs[i as int] == self.events@[i as int]@);
            i += 1;
        }
        assert(evs.take(self.events@.len() as int) =~= evs);
        body
    }
}

/// How the content types of a stream's chunks combine so far: `None` once two
/// non-empty chunks disagree, else the common type (`None` inside when no
/// non-empty chunk was seen).
pub open spec fn infer_acc(chunks: Seq<BodyView>) -> Option<Option<Seq<char>>>
    decreases chunks.len(),
{
    if chunks.len() == 0 {
        Some(None)
    } else {
        let chunk = chunks.last();
        match infer_acc(chunks.drop_last()) {
            None => None,
            Some(cur) => if chunk is Empty {
                Some(cur)
            } else {
                match cur {
                    None => Some(chunk.content_type()),
                    Some(e) => if Some(e) == chunk.content_type() {
                        Some(cur)
                    } else {
                        None
                    },
                }
            },
        }
    }
}

/// The content type a stream takes from its chunks: the one type that all
/// non-empty chunks share, if any.
pub open spec fn infer_stream_content_type(chunks: Seq<BodyView>) -> Option<Seq<char>> {
    match infer_acc(chunks) {
        Some(c) => c,
        None => None,
    }
}

/// The chunks' bytes, concatenated.
pub open spec fn chunks_bytes(chunks: Seq<BodyView>) -> Seq<u8>
    decreases chunks.len(),
{
    if chunks.len() == 0 {
        Seq::empty()
    } else {
        chunks_bytes(chunks.drop_last()) + chunks.last().bytes()
    }
}

/// The body a stream is buffered into.
pub open spec fn stream_body(chunks: Seq<BodyView>) -> BodyView {
    if chunks_bytes(chunks).len() == 0 {
        BodyView::Empty
    } else {
        BodyView::Bytes(chunks_bytes(chunks))
    }
}

pub open spec fn bodies_view(v: Seq<Body>) -> Seq<BodyView> {
    v.map_values(|b: Body| b@)
}

/// Buffered streaming response: chunks collected into one body.
#[derive(Debug, Clone, PartialEq, Eq)]
pub struct StreamBody {
    chunks: Vec<Body>,
    content_type: Option<String>,
}

pub struct StreamBodyView {
    pub chunks: Seq<BodyView>,
    pub content_type: Option<Seq<char>>,
}

impl View for StreamBody {
    type V = StreamBodyView;

    closed spec fn view(&self) -> StreamBodyView {
        StreamBodyView {
            chunks: bodies_view(self.chunks@),
            content_type: match self.content_type {
                Some(c) => Some(c@),
                None => None,
            },
        }
    }
}

/// The content type a stream is sent with: the one set, or the inferred one.
pub open spec fn stream_content_type(s: StreamBodyView) -> Option<Seq<char>> {
    match s.content_type {
        Some(c) => Some(c),
        None => infer_stream_content_type(s.chunks),
    }
}

impl StreamBody {
    /// A stream of the given chunks.
    pub fn new(chunks: Vec<Body>) -> (r: Self)
        ensures
            r@.chunks == bodies_view(chunks@),
            r@.content_type is None,
    {
        StreamBody { chunks, content_type: None }
    }

    /// Append a chunk.
    pub fn push(self, chunk: Body) -> (r: Self)
        ensures
            r@.chunks == self@.chunks.push(chunk@),
            r@.content_type == self@.content_type,
    {
        let mut r = self;
        r.chunks.push(chunk);
        assert(r@.chunks =~= self@.chunks.push(chunk@));
        r
    }

    /// Set the content type instead of inferring it.
    pub fn with_content_type(self, content_type: &str) -> (r: Self)
        ensures
            r@.chunks == self@.chunks,
            r@.content_type == Some(content_type@),
    {
        StreamBody { content_type: Some(content_type.to_owned()), ..self }
    }

    fn infer_content_type(chunks: &Vec<Body>) -> (r: Option<&'static str>)
        ensures
            match r {
                Some(c) => infer_stream_content_type(bodies_view(chunks@)) == Some(c@),
                None => infer_stream_content_type(bodies_view(chunks@)) is None,
            },
    {
        let ghost cs = bodies_view(chunks@);
        let mut content_type: Option<&'static str> = None;
        let mut i: usize = 0;
        while i < chunks.len()
            invariant
                i <= chunks@.len(),
                cs == bodies_view(chunks@),
                infer_acc(cs.take(i as int)) == Some(
                    match content_type {
                        Some(c) => Some(c@),
                        None => None,
                    },
                ),
            decreases chunks@.len() - i,
        {
            assert(cs.take(i + 1).drop_last() =~= cs.take(i as int));
            assert(cs[i as int] == chunks@[i as int]@);
            let chunk = &chunks[i];
            if !chunk.is_empty() {
                let ct = match chunk.content_type() {
                    Some(ct) => ct,
                    None => {
                        return None;
                    },
                };
                match content_type {
                    None => {
                        content_type = Some(ct);
                    },
                    Some(existing) => {
                        if !crate::text::str_eq(existing, ct) {
                            assert(infer_acc(cs.take(i + 1)) is None);
                            proof {
                                lemma_infer_stays_mixed(cs, i as int + 1);
                            }
                            return None;
                        }
                    },
                }
            }
            i += 1;
        }
        assert(cs.take(chunks@.len() as int) =~= cs);
        content_type
    }

    /// The buffered body and the content type it is sent with.
    pub fn into_parts(self) -> (r: (Body, Option<String>))
        ensures
            r.0@ == stream_body(self@.chunks),
            match r.1 {
                Some(c) => stream_content_type(self@) == Some(c@),
                None => stream_content_type(self@) is None,
            },
    {
        let ghost v = self@;
        let StreamBody { chunks, content_type } = self;
        let content_type = match content_type {
            Some(c) => Some(c),
            None => match StreamBody::infer_content_type(&chunks) {
                Some(c) => Some(c.to_owned()),
                None => None,
            },
        };
        let ghost cs = bodies_view(chunks@);
        let mut bytes: Vec<u8> = Vec::new();
        let mut i: usize = 0;
        while i < chunks.len()
            invariant
                i <= chunks@.len(),
                cs == bodies_view(chunks@),
                bytes@ == chunks_bytes(cs.take(i as int)),
            decreases chunks@.len() - i,
        {
            assert(cs.take(i + 1).drop_last() =~= cs.take(i as int));
            assert(cs[i as int] == chunks@[i as int]@);
            let b = chunks[i].as_bytes();
            let ghost before = bytes@;
            let mut k: usize = 0;
            while k < b.len()
                invariant
                    k <= b@.len(),
                    bytes@ == before + b@.take(k as int),
                decreases b@.len() - k,
            {
                bytes.push(b[k]);
                k += 1;
                assert(bytes@ =~= before + b@.take(k as int));
            }
            assert(b@.take(b@.len() as int) =~= b@);
            i += 1;
        }
        assert(cs.take(chunks@.len() as int) =~= cs);
        let body = if bytes.len() == 0 {
            Body::empty()
        } else {
            Body::bytes(bytes)
        };
        (body, content_type)
    }
}

proof fn lemma_infer_stays_mixed(cs: Seq<BodyView>, i: int)
    requires
        0 <= i <= cs.len(),
        infer_acc(cs.take(i)) is None,
    ensures
        infer_acc(cs) is None,
    decreases cs.len() - i,
{
    if i < cs.len() {
        assert(cs.take(i + 1).drop_last() =~= cs.take(i));
        lemma_infer_stays_mixed(cs, i + 1);
    } else {
        assert(cs.take(i) =~= cs);
    }
}

/// Values that become a response.
pub trait IntoResponse: Sized {
    fn into_response(self) -> NivasaResponse;
}

impl IntoResponse for NivasaResponseBuilder {
    fn into_response(self) -> (r: NivasaResponse)
        ensures
            r@.status == self@.status,
            r@.body == self@.body,
            forall|k: Seq<char>| #[trigger] r@.header(k) == built_header(self@.headers, self@.body, k),
    {
        self.build()
    }
}

impl IntoResponse for NivasaResponse {
    fn into_response(self) -> (r: NivasaResponse)
        ensures
            r@ == self@,
    {
        self
    }
}

impl IntoResponse for Body {
    fn into_response(self) -> (r: NivasaResponse)
        ensures
            r@.status == 200,
            r@.body == self@,
            forall|k: Seq<char>| #[trigger] r@.header(k) == built_header(Seq::empty(), self@, k),
    {
        NivasaResponse::new(200, self)
    }
}

impl IntoResponse for String {
    fn into_response(self) -> (r: NivasaResponse)
        ensures
            r@.status == 200,
            r@.body == BodyView::Text(self@),
            forall|k: Seq<char>|
                #[trigger] r@.header(k) == built_header(Seq::empty(), BodyView::Text(self@), k),
    {
        NivasaResponse::text(self.as_str())
    }
}

impl<'a> IntoResponse for &'a str {
    fn into_response(self) -> (r: NivasaResponse)
        ensures
            r@.status == 200,
            r@.body == BodyView::Text(self@),
            forall|k: Seq<char>|
                #[trigger] r@.header(k) == built_header(Seq::empty(), BodyView::Text(self@), k),
    {
        NivasaResponse::text(self)
    }
}

impl<T: IntoResponse, E: IntoResponse> IntoResponse for Result<T, E> {
    /// The response of the value, or of the error.
    fn into_response(self) -> (r: NivasaResponse)
        ensures
            match self {
                Ok(value) => call_ensures(T::into_response, (value,), r),
                Err(error) => call_ensures(E::into_response, (error,), r),
            },
    {
        match self {
            Ok(value) => value.into_response(),
            Err(error) => error.into_response(),
        }
    }
}

impl IntoResponse for Vec<u8> {
    fn into_response(self) -> (r: NivasaResponse)
        ensures
            r@.status == 200,
            r@.body == BodyView::Bytes(self@),
            forall|k: Seq<char>|
                #[trigger] r@.header(k) == built_header(Seq::empty(), BodyView::Bytes(self@), k),
    {
        NivasaResponse::bytes(self)
    }
}

impl IntoResponse for () {
    fn into_response(self) -> (r: NivasaResponse)
        ensures
            r@.status == 200,
            r@.body == BodyView::Empty,
            forall|k: Seq<char>| #[trigger] r@.header(k) is None,
    {
        NivasaResponse::new(200, Body::empty())
    }
}

impl IntoResponse for Text<String> {
    fn into_response(self) -> (r: NivasaResponse)
        ensures
            r@.status == 200,
            r@.body == BodyView::Text(self.0@),
            forall|k: Seq<char>|
                #[trigger] r@.header(k) == built_header(Seq::empty(), BodyView::Text(self.0@), k),
    {
        NivasaResponse::text(self.0.as_str())
    }
}

impl IntoResponse for Html<String> {
    fn into_response(self) -> (r: NivasaResponse)
        ensures
            r@.status == 200,
            r@.body == BodyView::Html(self.0@),
            forall|k: Seq<char>|
                #[trigger] r@.header(k) == built_header(Seq::empty(), BodyView::Html(self.0@), k),
    {
        NivasaResponse::html(self.0.as_str())
    }
}

impl IntoResponse for StreamBody {
    /// An OK response of the buffered body, with the stream's content type.
    fn into_response(self) -> (r: NivasaResponse)
        ensures
            r@.status == 200,
            r@.body == stream_body(self@.chunks),
            forall|k: Seq<char>|
                #[trigger] r@.header(k) == if k == "content-type"@ && stream_content_type(self@) is Some
                    && valid_value(encode_utf8(stream_content_type(self@)->0)) {
                    Some(encode_utf8(stream_content_type(self@)->0))
                } else {
                    built_header(Seq::empty(), stream_body(self@.chunks), k)
                },
    {
        let (body, content_type) = self.into_parts();
        let mut response = NivasaResponse::new(200, body);
        proof {
            reveal_strlit("content-type");
        }
        match content_type {
            Some(ct) => response.set_known_valid_header("content-type", ct.as_str()),
            None => {},
        }
        response
    }
}

impl NivasaResponse {
    /// An OK response of buffered chunks.
    pub fn stream(chunks: Vec<Body>) -> (r: NivasaResponse)
        ensures
            r@.status == 200,
            r@.body == stream_body(bodies_view(chunks@)),
    {
        StreamBody::new(chunks).into_response()
    }

    /// An OK server-sent events response of the given events.
    pub fn sse(events: Vec<SseEvent>) -> (r: NivasaResponse)
        ensures
            r@.status == 200,
            r@.body == BodyView::Text(render_events(events_view(events@))),
            forall|k: Seq<char>| #[trigger] r@.header(k) == sse_response_header(k),
    {
        Sse::new(events).into_response()
    }
}

/// The response of an SSE stream: status `200`, the framed events as text,
/// `content-type: text/event-stream; charset=utf-8` and `cache-control: no-cache`.
pub open spec fn sse_response_header(k: Seq<char>) -> Option<Seq<u8>> {
    if k == "content-type"@ {
        Some(encode_utf8("text/event-stream; charset=utf-8"@))
    } else if k == "cache-control"@ {
        Some(encode_utf8("no-cache"@))
    } else {
        None
    }
}

impl IntoResponse for Sse {
    fn into_response(self) -> (r: NivasaResponse)
        ensures
            r@.status == 200,
            r@.body == BodyView::Text(render_events(self@)),
            forall|k: Seq<char>| #[trigger] r@.header(k) == sse_response_header(k),
    {
        let body = self.into_body();
        let mut response = NivasaResponse::new(200, Body::text(body.as_str()));
        proof {
            reveal_strlit("content-type");
            reveal_strlit("cache-control");
            reveal_strlit("text/event-stream; charset=utf-8");
            reveal_strlit("no-cache");
        }
        response.set_known_header("content-type", "text/event-stream; charset=utf-8");
        let ghost mid = response@;
        response.set_known_header("cache-control", "no-cache");
        assert forall|k: Seq<char>| #[trigger] response@.header(k) == sse_response_header(k) by {
            if k == "cache-control"@ {
                assert(response@.header(k) == Some("no-cache".spec_bytes()));
                assert("cache-control"@.len() != "content-type"@.len());
                assert(sse_response_header(k) == Some(encode_utf8("no-cache"@)));
            } else if k == "content-type"@ {
                assert(mid.header(k) == Some("text/event-stream; charset=utf-8".spec_bytes()));
                assert(response@.header(k) == mid.header(k));
            } else {
                assert(mid.header(k) == built_header(Seq::empty(), BodyView::Text(body@), k));
                assert(lookup_header(Seq::<(Seq<char>, Seq<u8>)>::empty(), k) is None);
                assert(response@.header(k) is None);
            }
        }
        response
    }
}

impl IntoResponse for SseEvent {
    fn into_response(self) -> (r: NivasaResponse)
        ensures
            r@.status == 200,
            r@.body == BodyView::Text(render_event(self@)),
            forall|k: Seq<char>| #[trigger] r@.header(k) == sse_response_header(k),
    {
        let ghost e = self@;
        let sse = Sse::new(vec![self]);
        assert(sse@ =~= seq![e]);
        assert(seq![e].drop_last() =~= Seq::<SseEventView>::empty());
        assert(seq![e].last() == e);
        assert(render_events(Seq::<SseEventView>::empty()) == Seq::<char>::empty());
        assert(render_events(seq![e]) =~= render_event(e));
        sse.into_response()
    }
}


/// File download: the bytes as an attachment named `filename`.
#[derive(Debug, Clone, PartialEq, Eq)]
pub struct Download {
    filename: String,
    bytes: Vec<u8>,
}

impl Download {
    pub fn attachment(filename: &str, bytes: Vec<u8>) -> (r: Self)
        ensures
            r.filename_view() == filename@,
            r.bytes_view() == bytes@,
    {
        Download { filename: filename.to_owned(), bytes }
    }

    pub closed spec fn filename_view(&self) -> Seq<char> {
        self.filename@
    }

    pub closed spec fn bytes_view(&self) -> Seq<u8> {
        self.bytes@
    }
}

impl IntoResponse for Download {
    fn into_response(self) -> (r: NivasaResponse)
        ensures
            r@.status == 200,
            r@.body == BodyView::Bytes(self.bytes_view()),
            forall|k: Seq<char>|
                #[trigger] r@.header(k) == if k == "content-disposition"@ && valid_value(
                    encode_utf8(attachment_disposition(self.filename_view())),
                ) {
                    Some(encode_utf8(attachment_disposition(self.filename_view())))
                } else {
                    built_header(Seq::empty(), BodyView::Bytes(self.bytes_view()), k)
                },
    {
        NivasaResponse::download(self.filename.as_str(), self.bytes)
    }
}

/// Redirect with one of the common redirect statuses.
#[derive(Debug, PartialEq, Eq)]
pub struct Redirect {
    status: u16,
    location: String,
}

impl Redirect {
    #[verifier::type_invariant]
    spec fn valid(self) -> bool {
        is_status_code(self.status)
    }

    pub closed spec fn status_view(&self) -> u16 {
        self.status
    }

    pub closed spec fn location_view(&self) -> Seq<char> {
        self.location@
    }

    /// A redirect to `location` with `status`.
    pub fn to(location: &str, status: u16) -> (r: Self)
        requires
            is_status_code(status),
        ensures
            r.status_view() == status,
            r.location_view() == location@,
    {
        Redirect { status, location: location.to_owned() }
    }

    /// `301 Moved Permanently`.
    pub fn permanent(location: &str) -> (r: Self)
        ensures
            r.status_view() == 301,
            r.location_view() == location@,
    {
        Redirect::to(location, 301)
    }

    /// `302 Found`.
    pub fn temporary(location: &str) -> (r: Self)
        ensures
            r.status_view() == 302,
            r.location_view() == location@,
    {
        Redirect::to(location, 302)
    }

    /// `307 Temporary Redirect`, which keeps the method.
    pub fn temporary_preserve_method(location: &str) -> (r: Self)
        ensures
            r.status_view() == 307,
            r.location_view() == location@,
    {
        Redirect::to(location, 307)
    }

    /// `308 Permanent Redirect`, which keeps the method.
    pub fn permanent_preserve_method(location: &str) -> (r: Self)
        ensures
            r.status_view() == 308,
            r.location_view() == location@,
    {
        Redirect::to(location, 308)
    }
}

impl IntoResponse for Redirect {
    fn into_response(self) -> (r: NivasaResponse)
        ensures
            r@.status == self.status_view(),
            r@.body == BodyView::Empty,
            forall|k: Seq<char>|
                #[trigger] r@.header(k) == if k == "location"@ && valid_value(
                    encode_utf8(self.location_view()),
                ) {
                    Some(encode_utf8(self.location_view()))
                } else {
                    None
                },
    {
        proof {
            use_type_invariant(&self);
        }
        NivasaResponse::redirect(self.status, self.location.as_str())
    }
}


/// Mutable response handle a controller action fills in: status `200`, no
/// headers and an empty body until set.
#[derive(Debug, Clone)]
pub struct ControllerResponse {
    status: u16,
    headers: HeaderMap,
    body: Body,
}

impl View for ControllerResponse {
    type V = ResponseView;

    closed spec fn view(&self) -> ResponseView {
        ResponseView { status: self.status, headers: self.headers@, body: self.body@ }
    }
}

impl Default for ControllerResponse {
    fn default() -> (r: Self)
        ensures
            r@.status == 200,
            r@.headers.len() == 0,
            r@.body == BodyView::Empty,
    {
        ControllerResponse { status: 200, headers: HeaderMap::new(), body: Body::Empty }
    }
}

impl ControllerResponse {
    /// A fresh handle.
    pub fn new() -> (r: Self)
        ensures
            r@.status == 200,
            r@.headers.len() == 0,
            r@.body == BodyView::Empty,
    {
        ControllerResponse::default()
    }

    /// Set the status code.
    pub fn status(&mut self, status: u16)
        requires
            is_status_code(status),
        ensures
            final(self)@ == (ResponseView { status, ..old(self)@ }),
    {
        self.status = status;
    }

    /// Add or replace a header; an invalid name or value is ignored.
    pub fn header(&mut self, name: &str, value: &str)
        ensures
            final(self)@.status == old(self)@.status,
            final(self)@.body == old(self)@.body,
            forall|k: Seq<char>|
                #[trigger] final(self)@.header(k) == header_after_insert(
                    old(self)@.headers,
                    name.spec_bytes(),
                    value.spec_bytes(),
                    k,
                ),
    {
        let ghost before = self.headers;
        let _ = self.headers.insert(name, value);
        assert forall|k: Seq<char>|
            #[trigger] self@.header(k) == header_after_insert(
                before@,
                name.spec_bytes(),
                value.spec_bytes(),
                k,
            ) by {
            assert(self.headers.lookup(k) == self@.header(k));
            assert(before.lookup(k) == lookup_header(before@, k));
        }
    }

    /// Replace the body.
    pub fn body(&mut self, body: Body)
        ensures
            final(self)@ == (ResponseView { body: body@, ..old(self)@ }),
    {
        self.body = body;
    }

    /// Set a text body.
    pub fn text(&mut self, text: &str)
        ensures
            final(self)@ == (ResponseView { body: BodyView::Text(text@), ..old(self)@ }),
    {
        self.body(Body::text(text));
    }

    /// Set an HTML body.
    pub fn html(&mut self, html: &str)
        ensures
            final(self)@ == (ResponseView { body: BodyView::Html(html@), ..old(self)@ }),
    {
        self.body(Body::html(html));
    }

    /// Set a JSON body holding the serialized document `json`.
    pub fn json(&mut self, json: &str)
        ensures
            final(self)@ == (ResponseView { body: BodyView::Json(json@), ..old(self)@ }),
    {
        self.body(Body::json(json));
    }

    /// Set a raw byte body.
    pub fn bytes(&mut self, bytes: Vec<u8>)
        ensures
            final(self)@ == (ResponseView { body: BodyView::Bytes(bytes@), ..old(self)@ }),
    {
        self.body(Body::bytes(bytes));
    }
}

impl IntoResponse for ControllerResponse {
    /// The response as set, with the body's default `content-type` when none was set.
    fn into_response(self) -> (r: NivasaResponse)
        ensures
            r@.status == self@.status,
            r@.body == self@.body,
            forall|k: Seq<char>| #[trigger] r@.header(k) == built_header(self@.headers, self@.body, k),
    {
        let ControllerResponse { status, headers, body } = self;
        NivasaResponseBuilder { status, headers, body }.build()
    }
}

impl NivasaResponse {
    /// The response with its status replaced (a status paired with a value).
    pub fn with_status(self, status: u16) -> (r: NivasaResponse)
        requires
            is_status_code(status),
        ensures
            r@ == (ResponseView { status, ..self@ }),
    {
        let mut r = self;
        r.set_status(status);
        r
    }
}

/// The response an exception is answered with: its status (`500` when the
/// code is not a status), and the standard JSON error body.
pub open spec fn exception_response_ok(r: ResponseView, status_code: u16, message: Seq<char>) -> bool {
    &&& r.status == response_status(status_code)
    &&& r.body == BodyView::Json(error_body(status_code, message))
    &&& forall|k: Seq<char>|
        #[trigger] r.header(k) == built_header(
            Seq::empty(),
            BodyView::Json(error_body(status_code, message)),
            k,
        )
}

/// The response of an exception itself: the status (`500` for a code that
/// is not one), and the error body led by the details when there are any.
pub open spec fn detailed_exception_response_ok(r: ResponseView, e: HttpException) -> bool {
    let body = BodyView::Json(
        detailed_error_body(
            e.status_code,
            e.message@,
            match e.details {
                Some(d) => Some(d@),
                None => None,
            },
        ),
    );
    &&& r.status == response_status(e.status_code)
    &&& r.body == body
    &&& forall|k: Seq<char>| #[trigger] r.header(k) == built_header(Seq::empty(), body, k)
}

impl IntoResponse for HttpException {
    fn into_response(self) -> (r: NivasaResponse)
        ensures
            detailed_exception_response_ok(r@, self),
    {
        let status = if 100 <= self.status_code && self.status_code <= 999 {
            self.status_code
        } else {
            500
        };
        let body = detailed_error_body_json(&self);
        NivasaResponse::new(status, Body::json(body.as_str()))
    }
}

/// The standard error response for `e`: status, message and reason only,
/// without details.
pub fn exception_response(e: &HttpException) -> (r: NivasaResponse)
    ensures
        exception_response_ok(r@, e.status_code, e.message@),
{
    let status = if 100 <= e.status_code && e.status_code <= 999 {
        e.status_code
    } else {
        500
    };
    let body = error_body_json(e.status_code, e.message.as_str());
    NivasaResponse::new(status, Body::json(body.as_str()))
}


/// Filter that answers any `HttpException` with the standard error body.
#[derive(Debug, Clone, Copy, Default)]
pub struct HttpExceptionFilter;

impl HttpExceptionFilter {
    pub fn new() -> (r: Self) {
        HttpExceptionFilter
    }

    /// The standard error response for `exception`.
    pub fn catch(&self, exception: HttpException) -> (r: NivasaResponse)
        ensures
            exception_response_ok(r@, exception.status_code, exception.message@),
    {
        exception_response(&exception)
    }

    /// The filter handles every exception.
    pub fn is_catch_all(&self) -> (r: bool)
        ensures
            r,
    {
        true
    }
}

} // verus!
