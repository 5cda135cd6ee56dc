use nivasa_http::request::QueryValue;
use nivasa_http::{Body, FromRequest, HeaderMap, NivasaRequest, RequestExtractError, RoutePathCaptures};

fn make_req(method: &str, uri: &str, body: Body) -> NivasaRequest {
    NivasaRequest::new(method, uri, body)
}

#[test]
fn content_type_matches_body_variant() {
    let cases = [
        (Body::empty(), None),
        (Body::text("plain"), Some("text/plain; charset=utf-8")),
        (Body::html("<p>html</p>"), Some("text/html; charset=utf-8")),
        (Body::json(r#"{"ok":true}"#), Some("application/json")),
        (Body::bytes(vec![1_u8, 2, 3]), Some("application/octet-stream")),
    ];

    for (body, expected) in cases {
        assert_eq!(body.content_type(), expected);
    }
}

#[test]
fn new_request_path_and_method() {
    let req = NivasaRequest::new("DELETE", "/users/5", Body::empty());
    assert_eq!(req.method(), "DELETE");
    assert_eq!(req.path(), "/users/5");
}

#[test]
fn set_and_clear_path_params() {
    let mut captures = RoutePathCaptures::new();
    captures.push("id", "42");

    let mut req = NivasaRequest::new("GET", "/", Body::empty());
    req.set_path_params(captures);
    assert!(req.path_params().is_some());
    req.clear_path_params();
    assert!(req.path_params().is_none());
}

#[test]
fn from_request_header_map_clones_headers() {
    let mut req = make_req("GET", "/", Body::empty());
    req.set_header("x-foo", "bar");
    let map = HeaderMap::from_request(&req).unwrap();
    assert!(map.get("x-foo").is_some());
}

#[test]
fn from_request_route_path_captures_missing_returns_error() {
    let req = make_req("GET", "/", Body::empty());
    let result = RoutePathCaptures::from_request(&req);
    assert!(matches!(result, Err(RequestExtractError::MissingPathParameters)));
}

#[test]
fn from_request_body_clones_body() {
    let req = make_req("POST", "/", Body::text("hello"));
    let body = Body::from_request(&req).unwrap();
    assert_eq!(body.as_bytes(), b"hello");
}

#[test]
fn from_request_string_returns_text_body() {
    let req = make_req("POST", "/", Body::text("world"));
    let s = String::from_request(&req).unwrap();
    assert_eq!(s, "world");
}

#[test]
fn from_request_string_empty_body_returns_empty_string() {
    let req = make_req("GET", "/", Body::empty());
    let s = String::from_request(&req).unwrap();
    assert!(s.is_empty());
}

#[test]
fn from_request_string_rejects_bytes_that_are_not_utf8() {
    let req = make_req("POST", "/", Body::bytes(vec![0xff, 0xfe]));
    let result = String::from_request(&req);
    assert!(matches!(result, Err(RequestExtractError::InvalidBody(_))));
}

#[test]
fn from_request_string_decodes_utf8_bytes_and_json_text() {
    let bytes = make_req("POST", "/", Body::bytes("héllo".as_bytes().to_vec()));
    assert_eq!(String::from_request(&bytes).unwrap(), "héllo");

    let json = make_req("POST", "/", Body::json(r#"{"k":1}"#));
    assert_eq!(String::from_request(&json).unwrap(), r#"{"k":1}"#);
}

#[test]
fn from_request_captures_and_bytes_copy_what_the_request_holds() {
    let mut captures = RoutePathCaptures::new();
    captures.push("id", "7");
    let mut req = make_req("GET", "/users/7", Body::bytes(vec![1, 2, 3]));
    req.set_path_params(captures);

    let extracted = RoutePathCaptures::from_request(&req).unwrap();
    assert_eq!(extracted.get("id"), Some("7"));
    assert_eq!(Vec::<u8>::from_request(&req).unwrap(), vec![1, 2, 3]);

    let copy = req.extract::<NivasaRequest>().unwrap();
    assert_eq!(copy.path(), "/users/7");
    assert_eq!(copy.path_param("id"), Some("7"));
    assert_eq!(copy.body().as_bytes(), vec![1, 2, 3]);
}

#[test]
fn query_values_keep_the_last_value_of_each_name_and_read_json_scalars() {
    let req = make_req("GET", "/users?page=3&active=true&name=ann&page=4&tag=%5B1%2C2%5D", Body::empty());
    let mut values = req.query_values();
    values.sort_by(|a, b| a.0.cmp(&b.0));

    assert_eq!(
        values,
        vec![
            ("active".to_string(), QueryValue::Document("true".to_string())),
            ("name".to_string(), QueryValue::Text("ann".to_string())),
            ("page".to_string(), QueryValue::Document("4".to_string())),
            ("tag".to_string(), QueryValue::Document("[1,2]".to_string())),
        ]
    );
}
