use nivasa_http::RequestExtractError;

#[test]
fn display_missing_body() {
    let msg = RequestExtractError::MissingBody.message();
    assert!(msg.contains("body"), "unexpected: {msg}");
}

#[test]
fn display_missing_path_parameters() {
    let msg = RequestExtractError::MissingPathParameters.message();
    assert!(msg.contains("path"), "unexpected: {msg}");
}

#[test]
fn display_missing_path_parameter() {
    let msg = RequestExtractError::MissingPathParameter {
        name: "id".to_string(),
    }
    .message();
    assert!(msg.contains("id"), "unexpected: {msg}");
}

#[test]
fn display_missing_query_parameter() {
    let msg = RequestExtractError::MissingQueryParameter {
        name: "limit".to_string(),
    }
    .message();
    assert!(msg.contains("limit"), "unexpected: {msg}");
}

#[test]
fn display_missing_header() {
    let msg = RequestExtractError::MissingHeader {
        name: "x-token".to_string(),
    }
    .message();
    assert!(msg.contains("x-token"), "unexpected: {msg}");
}

#[test]
fn display_invalid_body() {
    let msg = RequestExtractError::InvalidBody("bad json".to_string()).message();
    assert!(msg.contains("bad json"), "unexpected: {msg}");
}

#[test]
fn display_invalid_path_parameter() {
    let msg = RequestExtractError::InvalidPathParameter {
        name: "id".to_string(),
        error: "not a number".to_string(),
    }
    .message();
    assert!(msg.contains("id"), "unexpected: {msg}");
    assert!(msg.contains("not a number"), "unexpected: {msg}");
}

#[test]
fn display_invalid_query_parameter() {
    let msg = RequestExtractError::InvalidQueryParameter {
        name: "page".to_string(),
        error: "NaN".to_string(),
    }
    .message();
    assert!(msg.contains("page"), "unexpected: {msg}");
}

#[test]
fn display_invalid_header() {
    let msg = RequestExtractError::InvalidHeader {
        name: "x-count".to_string(),
        error: "not int".to_string(),
    }
    .message();
    assert!(msg.contains("x-count"), "unexpected: {msg}");
}

#[test]
fn display_invalid_query() {
    let msg = RequestExtractError::InvalidQuery("decode error".to_string()).message();
    assert!(msg.contains("decode error"), "unexpected: {msg}");
}

#[test]
fn display_missing_extension() {
    let msg = RequestExtractError::MissingExtension {
        extension_type: "MySession",
    }
    .message();
    assert!(msg.contains("MySession"), "unexpected: {msg}");
}

#[test]
fn request_extract_error_is_std_error() {
    let err = RequestExtractError::MissingBody;
    assert!(!err.message().is_empty());
}

#[test]
fn extract_error_messages_are_exact() {
    assert_eq!(RequestExtractError::MissingBody.message(), "request body is empty");
    assert_eq!(
        RequestExtractError::InvalidPathParameter {
            name: "id".to_string(),
            error: "not a number".to_string(),
        }
        .message(),
        "invalid path parameter `id`: not a number"
    );
    assert_eq!(
        RequestExtractError::MissingHeader { name: "x-token".to_string() }.message(),
        "request is missing header `x-token`"
    );
}
