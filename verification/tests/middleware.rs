use nivasa_http::middleware::{
    accepts_compression, append_vary_accept_encoding, compress_response, log_context_from_request_and_response,
    CompressionFormat,
};
use nivasa_http::{
    Body, CompressionMiddleware, HeaderMap, HelmetMiddleware, LoggerMiddleware, NivasaRequest, NivasaResponse,
    RequestIdMiddleware,
};
use std::io::Read;

fn header(response: &NivasaResponse, name: &str) -> Option<String> {
    response.headers().get_str(name)
}

fn decompress_gzip(bytes: &[u8]) -> String {
    let mut decoder = flate2::read::GzDecoder::new(bytes);
    let mut output = String::new();
    decoder.read_to_string(&mut output).expect("gzip payload must decode");
    output
}

fn decompress_deflate(bytes: &[u8]) -> String {
    let mut decoder = flate2::read::DeflateDecoder::new(bytes);
    let mut output = String::new();
    decoder.read_to_string(&mut output).expect("deflate payload must decode");
    output
}

fn decompress_brotli(bytes: &[u8]) -> String {
    let mut decoder = brotli::Decompressor::new(bytes, 4096);
    let mut output = String::new();
    decoder.read_to_string(&mut output).expect("brotli payload must decode");
    output
}

fn compressed_for(accept: &str) -> NivasaResponse {
    let mut request = NivasaRequest::new("GET", "/compress", Body::empty());
    request.set_header("accept-encoding", accept);
    let format = accepts_compression(&request);
    CompressionMiddleware::new().respond(format, NivasaResponse::new(200, Body::text("compress me")))
}

fn assert_compressed_headers(response: &NivasaResponse, encoding: &str) {
    let body = response.body().as_bytes();
    assert_eq!(response.status(), 200);
    assert_eq!(header(response, "content-encoding").unwrap(), encoding);
    assert_eq!(header(response, "vary").unwrap(), "Accept-Encoding");
    assert_eq!(header(response, "content-type").unwrap(), "text/plain; charset=utf-8");
    assert_eq!(header(response, "content-length").unwrap(), body.len().to_string());
}

#[test]
fn compression_middleware_gzips_accepted_responses() {
    let response = compressed_for("gzip");
    assert_compressed_headers(&response, "gzip");
    assert_eq!(decompress_gzip(&response.body().as_bytes()), "compress me");
}

#[test]
fn compression_middleware_deflates_accepted_responses() {
    let response = compressed_for("deflate");
    assert_compressed_headers(&response, "deflate");
    assert_eq!(decompress_deflate(&response.body().as_bytes()), "compress me");
}

#[test]
fn compression_middleware_brotlis_accepted_responses() {
    let response = compressed_for("br");
    assert_compressed_headers(&response, "br");
    assert_eq!(decompress_brotli(&response.body().as_bytes()), "compress me");
}

#[test]
fn compression_middleware_leaves_uncompressed_requests_unchanged() {
    let request = NivasaRequest::new("GET", "/plain", Body::empty());
    let format = accepts_compression(&request);
    let response = CompressionMiddleware::new().respond(format, NivasaResponse::new(201, Body::text("plain")));

    assert_eq!(response.status(), 201);
    assert_eq!(response.body(), &Body::text("plain"));
    assert!(header(&response, "content-encoding").is_none());
}

#[test]
fn accepted_encoding_is_the_first_supported_entry() {
    let format_of = |accept: &str| {
        let mut request = NivasaRequest::new("GET", "/", Body::empty());
        request.set_header("accept-encoding", accept);
        accepts_compression(&request)
    };

    assert_eq!(format_of("identity, gzip;q=0.8, br"), Some(CompressionFormat::Gzip));
    assert_eq!(format_of(" deflate ;q=1, gzip"), Some(CompressionFormat::Deflate));
    assert_eq!(format_of("*"), Some(CompressionFormat::Brotli));
    assert_eq!(format_of("identity, compress"), None);
    assert_eq!(format_of("GZIP"), None);
}

#[test]
fn empty_bodies_are_not_compressed() {
    let response = compress_response(NivasaResponse::new(204, Body::empty()), CompressionFormat::Gzip);
    assert_eq!(response.status(), 204);
    assert!(response.body().is_empty());
    assert!(header(&response, "content-encoding").is_none());
}

#[test]
fn vary_lists_accept_encoding_once() {
    let mut headers = HeaderMap::new();
    append_vary_accept_encoding(&mut headers);
    assert_eq!(headers.get_str("vary").unwrap(), "Accept-Encoding");

    let mut headers = HeaderMap::new();
    headers.insert("vary", "Origin");
    append_vary_accept_encoding(&mut headers);
    assert_eq!(headers.get_str("vary").unwrap(), "Origin, Accept-Encoding");

    let mut headers = HeaderMap::new();
    headers.insert("vary", "origin, ACCEPT-ENCODING");
    append_vary_accept_encoding(&mut headers);
    assert_eq!(headers.get_str("vary").unwrap(), "origin, ACCEPT-ENCODING");
}

#[test]
fn helmet_middleware_adds_security_headers_without_altering_response() {
    let response = HelmetMiddleware::new().respond(NivasaResponse::new(200, Body::text("safe")));

    assert_eq!(response.status(), 200);
    assert_eq!(response.body(), &Body::text("safe"));
    assert_eq!(
        header(&response, "content-security-policy").unwrap(),
        "default-src 'self'; base-uri 'self'; frame-ancestors 'none'"
    );
    assert_eq!(header(&response, "referrer-policy").unwrap(), "no-referrer");
    assert_eq!(header(&response, "strict-transport-security").unwrap(), "max-age=31536000; includeSubDomains");
    assert_eq!(header(&response, "x-content-type-options").unwrap(), "nosniff");
    assert_eq!(header(&response, "x-frame-options").unwrap(), "DENY");
}

#[test]
fn request_id_middleware_propagates_an_existing_request_id() {
    let middleware = RequestIdMiddleware::new();
    let mut request = NivasaRequest::new("GET", "/middleware", Body::empty());
    request.set_header("x-request-id", "req-123");

    let (forwarded, id) = middleware.prepare(request);
    assert_eq!(forwarded.header_text("x-request-id").unwrap(), "req-123");

    let response = middleware.respond(NivasaResponse::text("ok"), &id);
    assert_eq!(response.status(), 200);
    assert_eq!(response.body(), &Body::text("ok"));
    assert_eq!(header(&response, "x-request-id").unwrap(), "req-123");
}

#[test]
fn request_id_middleware_generates_an_id_when_the_request_has_none() {
    let middleware = RequestIdMiddleware::new();
    let (forwarded, id) = middleware.prepare(NivasaRequest::new("GET", "/request-id", Body::empty()));

    assert!(uuid::Uuid::parse_str(&id).is_ok());
    assert_eq!(forwarded.header_text("x-request-id").unwrap(), id);
}

#[test]
fn log_context_prefers_request_headers_over_response_headers() {
    let mut request = NivasaRequest::new("GET", "/users", Body::empty());
    request.set_header("x-user-id", " user-1 ");
    let response = NivasaResponse::text("ok")
        .with_header("x-user-id", "user-2")
        .with_header("x-module-name", "users")
        .with_header("x-request-id", "   ");

    let context = log_context_from_request_and_response(&request, &response);
    assert_eq!(context.user_id.as_deref(), Some("user-1"));
    assert_eq!(context.module_name.as_deref(), Some("users"));
    assert_eq!(context.request_id, None);

    let same = LoggerMiddleware::new().log_context(&request, &response);
    assert_eq!(same.user_id.as_deref(), Some("user-1"));
}
