//! The decisions of the built-in middleware: response compression, security
//! headers, request ids, and the fields of request logs.
use std::io::Write;
use vstd::prelude::*;
use vstd::string::*;
use vstd::utf8::*;
use crate::body::{Body, BodyView};
use crate::controller::trimmed_header;
use crate::dispatch::{is_uuid_v4_text, request_header_text, request_header_value, resolve_request_id, with_request_id};
use crate::headers::{lookup_header, valid_value, value_text, HeaderMap, HeaderValue};
use crate::logging::LogContext;
use crate::request::{NivasaRequest, RequestView};
use crate::response::{NivasaResponse, ResponseView};
use crate::text::{eq_ignore_ascii_case, split, trim};

verus! {

// ---------------------------------------------------------------------------
// Compression
// ---------------------------------------------------------------------------

/// Response encodings the compression middleware can produce.
#[derive(Debug, Clone, Copy, PartialEq, Eq, Structural)]
pub enum CompressionFormat {
    Brotli,
    Gzip,
    Deflate,
}

/// The coding of one `accept-encoding` entry: the text before any `;`
/// parameters, trimmed.
pub open spec fn encoding_token(piece: Seq<char>) -> Seq<char> {
    trim(split(trim(piece), seq![';'])[0])
}

/// The format an encoding token asks for (`*` takes brotli).
pub open spec fn format_of_token(t: Seq<char>) -> Option<CompressionFormat> {
    if t == "br"@ {
        Some(CompressionFormat::Brotli)
    } else if t == "gzip"@ {
        Some(CompressionFormat::Gzip)
    } else if t == "deflate"@ {
        Some(CompressionFormat::Deflate)
    } else if t == "*"@ {
        Some(CompressionFormat::Brotli)
    } else {
        None
    }
}

/// The first entry, in order, that asks for a supported format.
pub open spec fn first_format(pieces: Seq<Seq<char>>) -> Option<CompressionFormat>
    decreases pieces.len(),
{
    if pieces.len() == 0 {
        None
    } else {
        match format_of_token(encoding_token(pieces[0])) {
            Some(f) => Some(f),
            None => first_format(pieces.drop_first()),
        }
    }
}

/// The format a request accepts, from its `accept-encoding` header.
pub open spec fn accepted_format(request: RequestView) -> Option<CompressionFormat> {
    match lookup_header(request.headers, "accept-encoding"@) {
        Some(v) => match value_text(v) {
            Some(t) => first_format(split(t, seq![','])),
            None => None,
        },
        None => None,
    }
}

fn token_format(piece: &[char]) -> (r: Option<CompressionFormat>)
    ensures
        r == format_of_token(encoding_token(piece@)),
{
    proof {
        reveal_strlit("br");
        reveal_strlit("gzip");
        reveal_strlit("deflate");
        reveal_strlit("*");
    }
    let t = crate::text::trim_chars(piece);
    let semi: Vec<char> = vec![';'];
    assert(semi@ =~= seq![';']);
    let parts = crate::text::split_chars(t.as_slice(), semi.as_slice());
    proof {
        crate::text::lemma_split_nonempty(t@, semi@);
    }
    assert(crate::text::views(parts@)[0] == parts@[0]@);
    let token = crate::text::trim_chars(parts[0].as_slice());
    let s = crate::text::string_of(token.as_slice());
    if crate::text::str_eq(s.as_str(), "br") {
        Some(CompressionFormat::Brotli)
    } else if crate::text::str_eq(s.as_str(), "gzip") {
        Some(CompressionFormat::Gzip)
    } else if crate::text::str_eq(s.as_str(), "deflate") {
        Some(CompressionFormat::Deflate)
    } else if crate::text::str_eq(s.as_str(), "*") {
        Some(CompressionFormat::Brotli)
    } else {
        None
    }
}

/// The compression format the request accepts, if any.
pub fn accepts_compression(request: &NivasaRequest) -> (r: Option<CompressionFormat>)
    ensures
        r == accepted_format(request@),
{
    proof {
        reveal_strlit("accept-encoding");
    }
    let headers = request.headers();
    assert(headers.lookup("accept-encoding"@) == lookup_header(request@.headers, "accept-encoding"@));
    let text = match headers.text_of("accept-encoding") {
        Some(t) => t,
        None => {
            return None;
        },
    };
    let chars = crate::text::chars_of(text.as_str());
    let comma: Vec<char> = vec![','];
    assert(comma@ =~= seq![',']);
    let pieces = crate::text::split_chars(chars.as_slice(), comma.as_slice());
    let ghost ps = crate::text::views(pieces@);
    let mut i: usize = 0;
    assert(ps.skip(0) =~= ps);
    while i < pieces.len()
        invariant
            i <= pieces@.len(),
            ps == crate::text::views(pieces@),
            accepted_format(request@) == first_format(ps.skip(i as int)),
        decreases pieces@.len() - i,
    {
        assert(ps.skip(i as int).drop_first() =~= ps.skip(i + 1));
        assert(ps.skip(i as int)[0] == pieces@[i as int]@);
        match token_format(pieces[i].as_slice()) {
            Some(f) => {
                return Some(f);
            },
            None => {},
        }
        i += 1;
    }
    None
}

/// The new `vary` text: `Accept-Encoding` added unless already listed;
/// `None` when it is already there.
pub open spec fn vary_with_accept_encoding(existing: Option<Seq<char>>) -> Option<Seq<char>> {
    match existing {
        Some(e) => if exists|i: int|
            0 <= i < split(e, seq![',']).len() && eq_ignore_ascii_case(
                trim(#[trigger] split(e, seq![','])[i]),
                "accept-encoding"@,
            ) {
            None
        } else {
            Some(e + ", Accept-Encoding"@)
        },
        None => Some("Accept-Encoding"@),
    }
}

/// The `vary` value stored after adding `Accept-Encoding` to `before`'s.
pub open spec fn vary_after(before: Option<Seq<u8>>) -> Option<Seq<u8>> {
    let existing = match before {
        Some(v) => value_text(v),
        None => None,
    };
    match vary_with_accept_encoding(existing) {
        Some(t) => if valid_value(encode_utf8(t)) {
            Some(encode_utf8(t))
        } else {
            before
        },
        None => before,
    }
}

/// List `Accept-Encoding` in `vary`, unless it is listed already.
pub fn append_vary_accept_encoding(headers: &mut HeaderMap)
    ensures
        forall|k: Seq<char>|
            #[trigger] final(headers).lookup(k) == if k == "vary"@ {
                vary_after(old(headers).lookup("vary"@))
            } else {
                old(headers).lookup(k)
            },
{
    proof {
        reveal_strlit("vary");
        reveal_strlit("accept-encoding");
        reveal_strlit(", Accept-Encoding");
        reveal_strlit("Accept-Encoding");
    }
    let existing = headers.text_of("vary");
    let updated: Option<String> = match existing {
        Some(e) => {
            let chars = crate::text::chars_of(e.as_str());
            let comma: Vec<char> = vec![','];
            assert(comma@ =~= seq![',']);
            let parts = crate::text::split_chars(chars.as_slice(), comma.as_slice());
            let ghost ps = crate::text::views(parts@);
            let target = crate::text::chars_of("accept-encoding");
            let mut found = false;
            let mut i: usize = 0;
            while i < parts.len()
                invariant
                    i <= parts@.len(),
                    ps == crate::text::views(parts@),
                    target@ == "accept-encoding"@,
                    found == exists|j: int| 0 <= j < i && eq_ignore_ascii_case(trim(#[trigger] ps[j]), "accept-encoding"@),
                decreases parts@.len() - i,
            {
                let t = crate::text::trim_chars(parts[i].as_slice());
                assert(ps[i as int] == parts@[i as int]@);
                if crate::text::chars_eq_ignore_ascii_case(t.as_slice(), target.as_slice()) {
                    found = true;
                }
                i += 1;
            }
            if found {
                None
            } else {
                let mut s = e.clone();
                s.append(", Accept-Encoding");
                Some(s)
            }
        },
        None => Some(String::from_str("Accept-Encoding")),
    };
    let ghost before = *headers;
    match updated {
        Some(v) => match HeaderValue::from_str(v.as_str()) {
            Some(hv) => headers.insert_canonical(String::from_str("vary"), hv),
            None => {},
        },
        None => {},
    }
    assert forall|k: Seq<char>|
        #[trigger] headers.lookup(k) == if k == "vary"@ {
            vary_after(before.lookup("vary"@))
        } else {
            before.lookup(k)
        } by {}
}

/// Brotli stream of `data` at quality 5, window 22.
pub uninterp spec fn brotli_bytes(data: Seq<u8>) -> Seq<u8>;

/// Gzip stream of `data` at the default level.
pub uninterp spec fn gzip_bytes(data: Seq<u8>) -> Seq<u8>;

/// Deflate stream of `data` at the default level.
pub uninterp spec fn deflate_bytes(data: Seq<u8>) -> Seq<u8>;

/// The bytes `brotli::Decompressor` reads out of a brotli stream.
pub uninterp spec fn brotli_decoded(stream: Seq<u8>) -> Seq<u8>;

/// The bytes `flate2::read::GzDecoder` reads out of a gzip stream.
pub uninterp spec fn gzip_decoded(stream: Seq<u8>) -> Seq<u8>;

/// The bytes `flate2::read::DeflateDecoder` reads out of a deflate stream.
pub uninterp spec fn deflate_decoded(stream: Seq<u8>) -> Seq<u8>;

/// `brotli::CompressorWriter` (4096-byte buffer, quality 5, window 22) over
/// `data`; the stream is named by `brotli_bytes`. Brotli is lossless: the
/// crate's decompressor reads `data` back out of the stream.
#[verifier::external_body]
fn brotli_compress(data: &[u8]) -> (r: Vec<u8>)
    ensures
        r@ == brotli_bytes(data@),
        brotli_decoded(r@) == data@,
{
    let mut encoder = brotli::CompressorWriter::new(Vec::new(), 4096, 5, 22);
    let _ = encoder.write_all(data);
    encoder.into_inner()
}

/// `flate2::write::GzEncoder` at the default level over `data`; the stream
/// is named by `gzip_bytes`. Gzip is lossless: `GzDecoder` reads `data`
/// back out of the stream.
#[verifier::external_body]
fn gzip_compress(data: &[u8]) -> (r: Vec<u8>)
    ensures
        r@ == gzip_bytes(data@),
        gzip_decoded(r@) == data@,
{
    let mut encoder = flate2::write::GzEncoder::new(Vec::new(), flate2::Compression::default());
    let _ = encoder.write_all(data);
    encoder.finish().unwrap_or_default()
}

/// `flate2::write::DeflateEncoder` at the default level over `data`; the
/// stream is named by `deflate_bytes`. Deflate is lossless:
/// `DeflateDecoder` reads `data` back out of the stream.
#[verifier::external_body]
fn deflate_compress(data: &[u8]) -> (r: Vec<u8>)
    ensures
        r@ == deflate_bytes(data@),
        deflate_decoded(r@) == data@,
{
    let mut encoder = flate2::write::DeflateEncoder::new(Vec::new(), flate2::Compression::default());
    let _ = encoder.write_all(data);
    encoder.finish().unwrap_or_default()
}

/// The compressed bytes of `data` in `format`.
pub open spec fn compressed(format: CompressionFormat, data: Seq<u8>) -> Seq<u8> {
    match format {
        CompressionFormat::Brotli => brotli_bytes(data),
        CompressionFormat::Gzip => gzip_bytes(data),
        CompressionFormat::Deflate => deflate_bytes(data),
    }
}

/// What the decoder of `format` reads out of `stream`.
pub open spec fn decompressed(format: CompressionFormat, stream: Seq<u8>) -> Seq<u8> {
    match format {
        CompressionFormat::Brotli => brotli_decoded(stream),
        CompressionFormat::Gzip => gzip_decoded(stream),
        CompressionFormat::Deflate => deflate_decoded(stream),
    }
}

/// The `content-encoding` name of a format.
pub open spec fn encoding_name(format: CompressionFormat) -> Seq<char> {
    match format {
        CompressionFormat::Brotli => "br"@,
        CompressionFormat::Gzip => "gzip"@,
        CompressionFormat::Deflate => "deflate"@,
    }
}

/// The header `k` of a compressed response whose stream is `n` bytes long.
pub open spec fn compressed_header(before: ResponseView, format: CompressionFormat, n: nat, k: Seq<char>) -> Option<
    Seq<u8>,
> {
    if k == "content-length"@ {
        if valid_value(encode_utf8(crate::text::decimal(n))) {
            Some(encode_utf8(crate::text::decimal(n)))
        } else {
            None
        }
    } else if k == "content-encoding"@ {
        Some(encode_utf8(encoding_name(format)))
    } else if k == "vary"@ {
        vary_after(before.header("vary"@))
    } else {
        before.header(k)
    }
}

/// The response with its body compressed in `format`: the stream as a byte
/// body, `content-encoding`, `content-length` and `vary` updated. An empty
/// body is left as it is. Decoding the new body gives the old body's bytes.
pub fn compress_response(response: NivasaResponse, format: CompressionFormat) -> (r: NivasaResponse)
    ensures
        response@.body is Empty ==> r@ == response@,
        !(response@.body is Empty) ==> decompressed(format, r@.body.bytes()) == response@.body.bytes(),
        !(response@.body is Empty) ==> r@.status == response@.status && r@.body == BodyView::Bytes(
            compressed(format, response@.body.bytes()),
        ) && forall|k: Seq<char>|
            #[trigger] r@.header(k) == compressed_header(
                response@,
                format,
                compressed(format, response@.body.bytes()).len(),
                k,
            ),
{
    if response.body().is_empty() {
        return response;
    }
    proof {
        reveal_strlit("content-length");
        reveal_strlit("content-encoding");
        reveal_strlit("vary");
        reveal_strlit("br");
        reveal_strlit("gzip");
        reveal_strlit("deflate");
    }
    let ghost v0 = response@;
    let (status, headers, body) = response.into_parts();
    let data = body.into_bytes();
    let stream = match format {
        CompressionFormat::Brotli => brotli_compress(data.as_slice()),
        CompressionFormat::Gzip => gzip_compress(data.as_slice()),
        CompressionFormat::Deflate => deflate_compress(data.as_slice()),
    };
    let encoding = match format {
        CompressionFormat::Brotli => "br",
        CompressionFormat::Gzip => "gzip",
        CompressionFormat::Deflate => "deflate",
    };
    let mut headers = headers;
    let ghost h0 = headers;
    headers.remove_canonical("content-length");
    headers.insert_canonical(String::from_str("content-encoding"), HeaderValue::from_static(encoding));
    let ghost h2 = headers;
    append_vary_accept_encoding(&mut headers);
    let ghost h3 = headers;
    let len_text = crate::text::decimal_string(stream.len() as u64);
    match HeaderValue::from_str(len_text.as_str()) {
        Some(v) => headers.insert_canonical(String::from_str("content-length"), v),
        None => {},
    }
    let n = stream.len();
    let r = NivasaResponse::from_parts(status, headers, Body::bytes(stream));
    assert forall|k: Seq<char>|
        #[trigger] r@.header(k) == compressed_header(v0, format, n as nat, k) by {
        assert(r@.header(k) == headers.lookup(k));
        assert(v0.header(k) == h0.lookup(k));
        assert(v0.header("vary"@) == h0.lookup("vary"@));
        assert("content-length"@.len() != "content-encoding"@.len());
        assert("vary"@.len() != "content-encoding"@.len());
        assert("vary"@.len() != "content-length"@.len());
        assert(h2.lookup("vary"@) == h0.lookup("vary"@));
    }
    r
}

// ---------------------------------------------------------------------------
// Security headers
// ---------------------------------------------------------------------------

/// The headers the security middleware sets on every response.
pub open spec fn helmet_header(k: Seq<char>) -> Option<Seq<char>> {
    if k == "content-security-policy"@ {
        Some("default-src 'self'; base-uri 'self'; frame-ancestors 'none'"@)
    } else if k == "referrer-policy"@ {
        Some("no-referrer"@)
    } else if k == "strict-transport-security"@ {
        Some("max-age=31536000; includeSubDomains"@)
    } else if k == "x-content-type-options"@ {
        Some("nosniff"@)
    } else if k == "x-frame-options"@ {
        Some("DENY"@)
    } else {
        None
    }
}

/// The response with the conservative security headers set.
pub fn apply_helmet_headers(response: NivasaResponse) -> (r: NivasaResponse)
    ensures
        r@.status == response@.status,
        r@.body == response@.body,
        forall|k: Seq<char>|
            #[trigger] r@.header(k) == match helmet_header(k) {
                Some(v) => Some(encode_utf8(v)),
                None => response@.header(k),
            },
{
    proof {
        reveal_strlit("content-security-policy");
        reveal_strlit("referrer-policy");
        reveal_strlit("strict-transport-security");
        reveal_strlit("x-content-type-options");
        reveal_strlit("x-frame-options");
        reveal_strlit("default-src 'self'; base-uri 'self'; frame-ancestors 'none'");
        reveal_strlit("no-referrer");
        reveal_strlit("max-age=31536000; includeSubDomains");
        reveal_strlit("nosniff");
        reveal_strlit("DENY");
    }
    let ghost v0 = response@;
    let mut r = response;
    r.set_known_header("content-security-policy", "default-src 'self'; base-uri 'self'; frame-ancestors 'none'");
    r.set_known_header("referrer-policy", "no-referrer");
    r.set_known_header("strict-transport-security", "max-age=31536000; includeSubDomains");
    r.set_known_header("x-content-type-options", "nosniff");
    r.set_known_header("x-frame-options", "DENY");
    assert forall|k: Seq<char>|
        #[trigger] r@.header(k) == match helmet_header(k) {
            Some(v) => Some(encode_utf8(v)),
            None => v0.header(k),
        } by {
        assert("content-security-policy"@.len() == 23);
        assert("referrer-policy"@.len() == 15);
        assert("strict-transport-security"@.len() == 25);
        assert("x-content-type-options"@.len() == 22);
        assert("x-frame-options"@.len() == 15);
        assert("referrer-policy"@[0] != "x-frame-options"@[0]);
    }
    r
}

// ---------------------------------------------------------------------------
// Request ids and log fields
// ---------------------------------------------------------------------------

/// The request as the request-id middleware passes it on, and the id it
/// tags the response with: the request's own `x-request-id` (trimmed,
/// non-empty) or a fresh one.
pub fn request_id_for_request(request: NivasaRequest) -> (r: (NivasaRequest, String))
    ensures
        match request_header_text(request@, "x-request-id"@) {
            Some(t) => r.1@ == t,
            None => is_uuid_v4_text(r.1@),
        },
        r.0@ == (RequestView { headers: r.0@.headers, ..request@ }),
        forall|k: Seq<char>|
            #[trigger] lookup_header(r.0@.headers, k) == if k == "x-request-id"@ && valid_value(
                encode_utf8(r.1@),
            ) {
                Some(encode_utf8(r.1@))
            } else {
                lookup_header(request@.headers, k)
            },
{
    let id = resolve_request_id(&request);
    let r = crate::dispatch::seed_request_identity(request, id.as_str());
    (r, id)
}

/// Every character is a tab or visible ASCII.
pub open spec fn visible_text(s: Seq<char>) -> bool {
    forall|i: int| 0 <= i < s.len() ==> (#[trigger] s[i] == '\t' || (' ' <= s[i] && s[i] <= '~'))
}

proof fn lemma_trim_start_keeps_visible(s: Seq<char>)
    requires
        visible_text(s),
    ensures
        visible_text(crate::text::trim_start(s)),
    decreases s.len(),
{
    if s.len() > 0 && crate::text::is_ws(s[0]) {
        let t = s.drop_first();
        assert forall|i: int| 0 <= i < t.len() implies (#[trigger] t[i] == '\t' || (' ' <= t[i] && t[i] <= '~')) by {
            assert(t[i] == s[i + 1]);
        }
        lemma_trim_start_keeps_visible(t);
    }
}

proof fn lemma_trim_end_keeps_visible(s: Seq<char>)
    requires
        visible_text(s),
    ensures
        visible_text(crate::text::trim_end(s)),
    decreases s.len(),
{
    if s.len() > 0 && crate::text::is_ws(s.last()) {
        let t = s.drop_last();
        assert forall|i: int| 0 <= i < t.len() implies (#[trigger] t[i] == '\t' || (' ' <= t[i] && t[i] <= '~')) by {
            assert(t[i] == s[i]);
        }
        lemma_trim_end_keeps_visible(t);
    }
}

/// A request id read from a request's `x-request-id` header is a valid
/// header value: the request-id middleware passes it on, and echoes it on
/// the response, unchanged.
pub proof fn lemma_carried_request_id_is_a_valid_value(request: RequestView, id: Seq<char>)
    requires
        request_header_text(request, "x-request-id"@) == Some(id),
    ensures
        valid_value(encode_utf8(id)),
{
    let v = lookup_header(request.headers, "x-request-id"@)->0;
    let t = value_text(v)->0;
    assert(visible_text(t)) by {
        assert forall|i: int| 0 <= i < t.len() implies (#[trigger] t[i] == '\t' || (' ' <= t[i] && t[i] <= '~')) by {
            assert(t[i] == v[i] as char);
            assert(crate::headers::is_visible_ascii(v[i]));
        }
    }
    lemma_trim_start_keeps_visible(t);
    lemma_trim_end_keeps_visible(crate::text::trim_start(t));
    assert(id == trim(t));
    assert(is_ascii_chars(id));
    is_ascii_chars_encode_utf8(id);
    let b = encode_utf8(id);
    assert forall|i: int| 0 <= i < b.len() implies crate::headers::is_value_byte(b[i]) by {
        assert(id[i] as u8 == b[i]);
    }
}

/// The trimmed, non-empty text of the response header under the canonical name `name`.
pub open spec fn response_header_text(response: ResponseView, name: Seq<char>) -> Option<Seq<char>> {
    trimmed_header(
        match response.header(name) {
            Some(v) => value_text(v),
            None => None,
        },
    )
}

pub fn header_value_from_response(response: &NivasaResponse, name: &str) -> (r: Option<String>)
    ensures
        match r {
            Some(s) => response_header_text(response@, name@) == Some(s@),
            None => response_header_text(response@, name@) is None,
        },
{
    let headers = response.headers();
    let text = headers.text_of(name);
    assert(headers.lookup(name@) == response@.header(name@));
    match crate::controller::trimmed_text(text) {
        Some(v) => Some(crate::text::string_of(v.as_slice())),
        None => None,
    }
}

/// The text of a log field: the request's header, else the response's.
pub open spec fn log_field(request: RequestView, response: ResponseView, name: Seq<char>) -> Option<Seq<char>> {
    match request_header_text(request, name) {
        Some(t) => Some(t),
        None => response_header_text(response, name),
    }
}

pub open spec fn opt_string_view(o: Option<String>) -> Option<Seq<char>> {
    match o {
        Some(s) => Some(s@),
        None => None,
    }
}

/// The log context of a completed request: request id, user id and module
/// name, each from the request's headers or else the response's.
pub fn log_context_from_request_and_response(request: &NivasaRequest, response: &NivasaResponse) -> (r: LogContext)
    ensures
        opt_string_view(r.request_id) == log_field(request@, response@, "x-request-id"@),
        opt_string_view(r.user_id) == log_field(request@, response@, "x-user-id"@),
        opt_string_view(r.module_name) == log_field(request@, response@, "x-module-name"@),
{
    proof {
        reveal_strlit("x-request-id");
        reveal_strlit("x-user-id");
        reveal_strlit("x-module-name");
    }
    let request_id = match request_header_value(request, "x-request-id") {
        Some(v) => Some(v),
        None => header_value_from_response(response, "x-request-id"),
    };
    let user_id = match request_header_value(request, "x-user-id") {
        Some(v) => Some(v),
        None => header_value_from_response(response, "x-user-id"),
    };
    let module_name = match request_header_value(request, "x-module-name") {
        Some(v) => Some(v),
        None => header_value_from_response(response, "x-module-name"),
    };
    LogContext { request_id, user_id, module_name }
}


// ---------------------------------------------------------------------------
// The built-in middleware
// ---------------------------------------------------------------------------

/// Middleware that logs each completed request.
#[derive(Debug, Clone, Copy, Default)]
pub struct LoggerMiddleware;

impl LoggerMiddleware {
    pub fn new() -> (r: Self) {
        LoggerMiddleware
    }

    /// The log context of a completed request.
    pub fn log_context(&self, request: &NivasaRequest, response: &NivasaResponse) -> (r: LogContext)
        ensures
            opt_string_view(r.request_id) == log_field(request@, response@, "x-request-id"@),
            opt_string_view(r.user_id) == log_field(request@, response@, "x-user-id"@),
            opt_string_view(r.module_name) == log_field(request@, response@, "x-module-name"@),
    {
        log_context_from_request_and_response(request, response)
    }
}

/// Middleware that compresses response bodies in the encoding the request accepts.
#[derive(Debug, Clone, Copy, Default)]
pub struct CompressionMiddleware;

impl CompressionMiddleware {
    pub fn new() -> (r: Self) {
        CompressionMiddleware
    }

    /// The response to send for a request that accepted `format` (if any).
    pub fn respond(&self, format: Option<CompressionFormat>, response: NivasaResponse) -> (r: NivasaResponse)
        ensures
            format is None ==> r@ == response@,
            format matches Some(f) ==> (response@.body is Empty ==> r@ == response@) && (!(
            response@.body is Empty) ==> r@.status == response@.status && r@.body == BodyView::Bytes(
                compressed(f, response@.body.bytes()),
            ) && decompressed(f, r@.body.bytes()) == response@.body.bytes()),
    {
        match format {
            Some(f) => compress_response(response, f),
            None => response,
        }
    }
}

/// Middleware that sets conservative security headers on every response.
#[derive(Debug, Clone, Copy, Default)]
pub struct HelmetMiddleware;

impl HelmetMiddleware {
    pub fn new() -> (r: Self) {
        HelmetMiddleware
    }

    pub fn respond(&self, response: NivasaResponse) -> (r: NivasaResponse)
        ensures
            r@.status == response@.status,
            r@.body == response@.body,
            forall|k: Seq<char>|
                #[trigger] r@.header(k) == match helmet_header(k) {
                    Some(v) => Some(encode_utf8(v)),
                    None => response@.header(k),
                },
    {
        apply_helmet_headers(response)
    }
}

/// Middleware that gives every request an `x-request-id` and echoes it on the response.
#[derive(Debug, Clone, Copy, Default)]
pub struct RequestIdMiddleware;

impl RequestIdMiddleware {
    pub fn new() -> (r: Self) {
        RequestIdMiddleware
    }

    /// The request to pass on, carrying the id, and the id.
    pub fn prepare(&self, request: NivasaRequest) -> (r: (NivasaRequest, String))
        ensures
            match request_header_text(request@, "x-request-id"@) {
                Some(t) => r.1@ == t,
                None => is_uuid_v4_text(r.1@),
            },
            r.0@ == (RequestView { headers: r.0@.headers, ..request@ }),
            forall|k: Seq<char>|
                #[trigger] lookup_header(r.0@.headers, k) == if k == "x-request-id"@ && valid_value(
                    encode_utf8(r.1@),
                ) {
                    Some(encode_utf8(r.1@))
                } else {
                    lookup_header(request@.headers, k)
                },
    {
        request_id_for_request(request)
    }

    /// The response tagged with the request's id.
    pub fn respond(&self, response: NivasaResponse, request_id: &str) -> (r: NivasaResponse)
        ensures
            r@.status == response@.status,
            r@.body == response@.body,
            forall|k: Seq<char>|
                #[trigger] r@.header(k) == if k == "x-request-id"@ && valid_value(request_id.spec_bytes()) {
                    Some(request_id.spec_bytes())
                } else {
                    response@.header(k)
                },
    {
        with_request_id(response, Some(request_id))
    }
}

/// A middleware wrapped for use as a service layer.
#[derive(Debug, Clone)]
pub struct NivasaMiddlewareLayer<M> {
    pub middleware: M,
}

impl<M> NivasaMiddlewareLayer<M> {
    pub fn new(middleware: M) -> (r: Self)
        ensures
            r.middleware == middleware,
    {
        NivasaMiddlewareLayer { middleware }
    }
}

} // verus!
