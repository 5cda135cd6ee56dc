use nivasa_http::dispatch::{continue_middleware_sequence, MiddlewareOutcome};
use nivasa_http::exception::error_body_json;
use nivasa_http::headers::canonical_name;
use nivasa_http::{Body, ClientIp, CorsOptions, HeaderMap, NivasaRequest, NivasaResponse, RequestIdMiddleware};

#[test]
fn client_ip_converts_from_owned_and_borrowed_text() {
    let text = String::from("203.0.113.9");
    let from_owned = ClientIp::from(text.clone());
    let from_borrowed = ClientIp::from(text.as_str());
    assert_eq!(from_owned, ClientIp::new("203.0.113.9"));
    assert_eq!(from_borrowed, from_owned);
    assert_eq!(from_owned.as_str(), "203.0.113.9");
    assert_eq!(from_borrowed.into_string(), text);
}

#[test]
fn header_names_are_lower_cased_and_validated() {
    assert_eq!(canonical_name("X-Request-ID"), Some("x-request-id".to_string()));
    assert_eq!(canonical_name("content-type"), Some("content-type".to_string()));
    assert_eq!(canonical_name(""), None);
    assert_eq!(canonical_name("bad name"), None);
    assert_eq!(canonical_name("bad:name"), None);
}

#[test]
fn a_stored_header_reads_back_under_any_letter_case() {
    let mut headers = HeaderMap::new();
    assert!(headers.insert("Content-Type", "text/plain"));
    assert_eq!(headers.get_str("content-type"), Some("text/plain".to_string()));
    assert_eq!(headers.get_str("CONTENT-TYPE"), Some("text/plain".to_string()));
    assert!(!headers.insert("bad name", "x"));
    assert_eq!(headers.len(), 1);

    let mut request = NivasaRequest::new("GET", "/", Body::empty());
    request.set_header("X-Trace", "abc");
    assert_eq!(request.header_text("x-trace"), Some("abc".to_string()));
}

#[test]
fn error_bodies_escape_quotes_backslashes_and_control_characters() {
    let body = error_body_json(400, "a \"b\" \\ c\n\u{1}");
    assert_eq!(
        body,
        "{\"error\":\"Bad Request\",\"message\":\"a \\\"b\\\" \\\\ c\\n\\u0001\",\"statusCode\":400}"
    );
}

#[test]
fn a_fresh_request_id_is_a_lower_case_version_four_uuid() {
    let middleware = RequestIdMiddleware::new();
    let (_, id) = middleware.prepare(NivasaRequest::new("GET", "/", Body::empty()));
    let chars: Vec<char> = id.chars().collect();
    assert_eq!(chars.len(), 36);
    for (i, c) in chars.iter().enumerate() {
        if i == 8 || i == 13 || i == 18 || i == 23 {
            assert_eq!(*c, '-');
        } else {
            assert!(c.is_ascii_digit() || ('a'..='f').contains(c));
        }
    }
    assert_eq!(chars[14], '4');
    assert!(matches!(chars[19], '8' | '9' | 'a' | 'b'));
}

#[test]
fn a_middleware_sequence_stops_at_the_first_answer() {
    let forwarded = MiddlewareOutcome::Forwarded(NivasaRequest::new("GET", "/next", Body::empty()));
    match continue_middleware_sequence(forwarded) {
        Ok(next) => assert_eq!(next.path(), "/next"),
        Err(_) => panic!("a forwarded request goes on"),
    }

    let answered = MiddlewareOutcome::ShortCircuited {
        request: NivasaRequest::new("GET", "/", Body::empty()),
        response: NivasaResponse::new(401, Body::text("no")),
    };
    match continue_middleware_sequence(answered) {
        Ok(_) => panic!("an answer ends the sequence"),
        Err(MiddlewareOutcome::ShortCircuited { response, .. }) => assert_eq!(response.status(), 401),
        Err(MiddlewareOutcome::Forwarded(_)) => panic!("the answer is kept"),
    }
}

#[test]
fn cors_header_texts_a_header_cannot_hold_are_dropped() {
    let reflective = CorsOptions::permissive().allow_credentials(true);
    assert_eq!(reflective.allow_origin_header_value(Some("https://a.example\n")), None);
    assert_eq!(
        reflective.allow_origin_header_value(Some("https://a.example")),
        Some("https://a.example".to_string())
    );
    let listed = CorsOptions::permissive().allow_headers(vec!["x-one".to_string(), "bad\u{7f}".to_string()]);
    assert_eq!(listed.allow_headers_header_value(&HeaderMap::new()), None);
    let methods = CorsOptions::permissive().allow_methods(vec!["GET".to_string(), "P\rST".to_string()]);
    assert_eq!(methods.allow_methods_header_value(&HeaderMap::new()), None);
}
