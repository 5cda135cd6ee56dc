use nivasa_http::{
    run_controller_action, run_controller_action_with_body, run_controller_action_with_custom_param,
    run_controller_action_with_file, run_controller_action_with_files, run_controller_action_with_headers,
    run_controller_action_with_ip, run_controller_action_with_request, Body, ClientIp, ControllerParamExtractor,
    FileInterceptor, FilesInterceptor, HeaderMap, HttpException, NivasaRequest, NivasaResponse, UploadedFile,
};

fn header(response: &NivasaResponse, name: &str) -> Option<String> {
    response.headers().get_str(name)
}

fn error_json(response: &NivasaResponse) -> serde_json::Value {
    serde_json::from_slice(&response.body().as_bytes()).unwrap()
}

fn multipart(field: &str, filename: &str) -> (String, Vec<u8>) {
    let body = format!(
        "--B\r\nContent-Disposition: form-data; name=\"{field}\"; filename=\"{filename}\"\r\n\r\ndata\r\n--B--\r\n"
    );
    ("multipart/form-data; boundary=B".to_string(), body.into_bytes())
}

#[test]
fn controller_action_answers_with_what_the_handle_set() {
    let request = NivasaRequest::new("GET", "/users", Body::empty());
    let response = run_controller_action(&request, |req, res| {
        res.status(201);
        res.text(req.path());
    });

    assert_eq!(response.status(), 201);
    assert_eq!(response.body().as_bytes(), b"/users");
    assert_eq!(header(&response, "content-type").unwrap(), "text/plain; charset=utf-8");
}

#[test]
fn body_action_receives_the_text_body() {
    let request = NivasaRequest::new("POST", "/echo", Body::text("hello"));
    let response = run_controller_action_with_body(&request, |body: String| body.to_uppercase());

    assert_eq!(response.status(), 200);
    assert_eq!(response.body().as_bytes(), b"HELLO");
}

#[test]
fn body_action_answers_bad_request_when_the_body_cannot_be_read() {
    let request = NivasaRequest::new("POST", "/echo", Body::bytes(vec![0xff]));
    let response = run_controller_action_with_body(&request, |body: String| body);

    assert_eq!(response.status(), 400);
    let json = error_json(&response);
    assert_eq!(json["statusCode"], serde_json::Value::from(400));
    assert!(json["message"].as_str().unwrap().starts_with("invalid request body: "));
}

#[test]
fn request_and_header_actions_see_the_request() {
    let mut request = NivasaRequest::new("GET", "/items", Body::empty());
    request.set_header("x-tenant", "acme");

    let response = run_controller_action_with_request(&request, |req: &NivasaRequest| req.method().to_string());
    assert_eq!(response.body().as_bytes(), b"GET");

    let response = run_controller_action_with_headers(&request, |headers: HeaderMap| {
        headers.get_str("x-tenant").unwrap_or_default()
    });
    assert_eq!(response.body().as_bytes(), b"acme");
}

#[test]
fn ip_action_prefers_the_recorded_address_then_forwarded_headers() {
    let mut request = NivasaRequest::new("GET", "/ip", Body::empty());
    request.set_header("x-forwarded-for", " 203.0.113.7 , 10.0.0.1");
    let response = run_controller_action_with_ip(&request, |ip: String| ip);
    assert_eq!(response.body().as_bytes(), b"203.0.113.7");

    request.set_client_ip(ClientIp::new("198.51.100.2"));
    let response = run_controller_action_with_ip(&request, |ip: String| ip);
    assert_eq!(response.body().as_bytes(), b"198.51.100.2");
}

#[test]
fn ip_action_answers_bad_request_without_an_address() {
    let request = NivasaRequest::new("GET", "/ip", Body::empty());
    let response = run_controller_action_with_ip(&request, |ip: String| ip);

    assert_eq!(response.status(), 400);
    assert_eq!(error_json(&response)["message"], "request client IP is missing");
}

struct TenantExtractor;

impl ControllerParamExtractor<String> for TenantExtractor {
    fn extract(&self, request: &NivasaRequest) -> Result<String, HttpException> {
        request
            .header_text("x-tenant")
            .ok_or_else(|| HttpException::new(401, "tenant required"))
    }
}

#[test]
fn custom_param_action_uses_the_extractor_and_its_error() {
    let mut request = NivasaRequest::new("GET", "/t", Body::empty());
    let response = run_controller_action_with_custom_param(&request, TenantExtractor, |t: String| t);
    assert_eq!(response.status(), 401);
    assert_eq!(error_json(&response)["message"], "tenant required");

    request.set_header("x-tenant", "acme");
    let response = run_controller_action_with_custom_param(&request, TenantExtractor, |t: String| t);
    assert_eq!(response.status(), 200);
    assert_eq!(response.body().as_bytes(), b"acme");
}

#[test]
fn file_action_receives_the_uploaded_file() {
    let (content_type, body) = multipart("avatar", "a.png");
    let mut request = NivasaRequest::new("POST", "/upload", Body::bytes(body));
    request.set_header("content-type", &content_type);

    let response = run_controller_action_with_file(&request, &FileInterceptor::new("avatar"), |file: UploadedFile| {
        file.filename().to_string()
    });
    assert_eq!(response.status(), 200);
    assert_eq!(response.body().as_bytes(), b"a.png");

    let response = run_controller_action_with_files(&request, &FilesInterceptor::new("avatar"), |files: Vec<UploadedFile>| {
        files.len().to_string()
    });
    assert_eq!(response.body().as_bytes(), b"1");
}

#[test]
fn file_action_answers_bad_request_for_missing_content_type_and_upload_errors() {
    let (_, body) = multipart("avatar", "a.png");
    let mut request = NivasaRequest::new("POST", "/upload", Body::bytes(body));
    let interceptor = FileInterceptor::new("avatar");

    let response = run_controller_action_with_file(&request, &interceptor, |f: UploadedFile| f.len().to_string());
    assert_eq!(response.status(), 400);
    assert_eq!(error_json(&response)["message"], "request is missing header `content-type`");

    request.set_header("content-type", "text/plain");
    let response = run_controller_action_with_file(&request, &interceptor, |f: UploadedFile| f.len().to_string());
    assert_eq!(response.status(), 400);
    assert_eq!(error_json(&response)["message"], "missing multipart boundary in content type");

    let response = run_controller_action_with_files(&request, &FilesInterceptor::new("avatar"), |fs: Vec<UploadedFile>| {
        fs.len().to_string()
    });
    assert_eq!(response.status(), 400);
}
