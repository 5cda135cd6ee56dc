use nivasa_http::{
    Body, ControllerResponse, Download, HttpException, HttpExceptionFilter, IntoResponse, NivasaResponse, Redirect,
    Sse, SseEvent, StreamBody,
};

fn header(response: &NivasaResponse, name: &str) -> Option<String> {
    response.headers().get_str(name)
}

#[test]
fn download_helper_escapes_quotes_and_backslashes_in_filename() {
    let response = NivasaResponse::download(r#"folder\report"final".csv"#, b"csv".to_vec());

    assert_eq!(response.status(), 200);
    assert_eq!(response.body().as_bytes(), b"csv");
    assert_eq!(header(&response, "content-type").unwrap(), "application/octet-stream");
    assert_eq!(
        header(&response, "content-disposition").unwrap(),
        r#"attachment; filename="folder\\report\"final\".csv""#
    );
}

#[test]
fn download_attachment_sets_headers_and_preserves_body_bytes() {
    let response = Download::attachment("report.csv", b"id,name\n1,Ada\n".to_vec()).into_response();

    assert_eq!(response.status(), 200);
    assert_eq!(response.body().as_bytes(), b"id,name\n1,Ada\n");
    assert_eq!(header(&response, "content-type").unwrap(), "application/octet-stream");
    assert_eq!(header(&response, "content-disposition").unwrap(), "attachment; filename=\"report.csv\"");
}

#[test]
fn response_builder_download_helper_uses_the_same_attachment_surface() {
    let response = NivasaResponse::download("archive.bin", vec![0, 1, 2, 3]);

    assert_eq!(response.status(), 200);
    assert_eq!(response.body().as_bytes(), vec![0, 1, 2, 3]);
    assert_eq!(header(&response, "content-type").unwrap(), "application/octet-stream");
    assert_eq!(header(&response, "content-disposition").unwrap(), "attachment; filename=\"archive.bin\"");
}

#[test]
fn stream_body_push_skips_empty_chunks_when_inferring_content_type() {
    let response = StreamBody::new(Vec::<Body>::new())
        .push(Body::empty())
        .push(Body::text("tail"))
        .into_response();

    assert_eq!(response.status(), 200);
    assert_eq!(header(&response, "content-type").unwrap(), "text/plain; charset=utf-8");
    assert_eq!(response.body().as_bytes(), b"tail");
}

#[test]
fn stream_body_with_only_empty_chunks_stays_empty_without_content_type() {
    let response = StreamBody::new(Vec::<Body>::new())
        .push(Body::empty())
        .push(Body::empty())
        .into_response();

    assert_eq!(response.status(), 200);
    assert!(response.body().is_empty());
    assert!(header(&response, "content-type").is_none());
}

#[test]
fn stream_body_with_mixed_chunk_types_sends_no_inferred_type() {
    let response = NivasaResponse::stream(vec![Body::text("a"), Body::bytes(vec![b'b'])]);
    assert_eq!(response.body().as_bytes(), b"ab");
    assert_eq!(header(&response, "content-type").unwrap(), "application/octet-stream");
}

#[test]
fn stream_body_explicit_content_type_wins() {
    let response = StreamBody::new(vec![Body::text("a")])
        .with_content_type("text/csv")
        .into_response();
    assert_eq!(header(&response, "content-type").unwrap(), "text/csv");
}

#[test]
fn sse_push_sanitizes_event_and_id_lines_and_strips_carriage_returns() {
    let response = Sse::new(Vec::<SseEvent>::new())
        .push(
            SseEvent::data("line one\r\nline two\n")
                .event("up\r\ndate")
                .id("id\r\n42")
                .retry(2_500),
        )
        .push(SseEvent::comment("ping\r\npong"))
        .into_response();

    assert_eq!(response.status(), 200);
    assert_eq!(header(&response, "content-type").unwrap(), "text/event-stream; charset=utf-8");
    assert_eq!(header(&response, "cache-control").unwrap(), "no-cache");
    assert_eq!(
        response.body().as_bytes(),
        b"event: up  date\nid: id  42\nretry: 2500\ndata: line one\ndata: line two\ndata: \n\n: ping\n: pong\n\n"
    );
}

#[test]
fn sse_helper_frames_one_event() {
    let response = NivasaResponse::sse(vec![SseEvent::data("ready").event("status")]);
    assert_eq!(response.status(), 200);
    assert_eq!(response.body().as_bytes(), b"event: status\ndata: ready\n\n");
}

#[test]
fn controller_response_ignores_invalid_headers_and_keeps_json_contract() {
    let mut response = ControllerResponse::new();
    response.status(202);
    response.header("x-valid", "ok");
    response.header("bad header", "ignored");
    response.header("x-bad-value", "bad\nvalue");
    response.json("{\"ok\":true}");

    let response = response.into_response();

    assert_eq!(response.status(), 202);
    assert_eq!(header(&response, "x-valid").unwrap(), "ok");
    assert!(header(&response, "bad header").is_none());
    assert!(header(&response, "x-bad-value").is_none());
    assert_eq!(header(&response, "content-type").unwrap(), "application/json");
    assert_eq!(response.body().as_bytes(), b"{\"ok\":true}");
}

#[test]
fn into_response_helpers_cover_unit_and_byte_vector_edges() {
    let empty = ().into_response();
    let bytes = vec![1_u8, 2, 3].into_response();

    assert_eq!(empty.status(), 200);
    assert!(empty.body().is_empty());
    assert!(header(&empty, "content-type").is_none());

    assert_eq!(bytes.status(), 200);
    assert_eq!(bytes.body().as_bytes(), [1_u8, 2, 3]);
    assert_eq!(header(&bytes, "content-type").unwrap(), "application/octet-stream");
}

#[test]
fn builder_keeps_an_explicit_content_type() {
    let response = NivasaResponse::builder()
        .status(202)
        .header("Content-Type", "text/csv")
        .body(Body::text("a,b"));
    assert_eq!(response.status(), 202);
    assert_eq!(header(&response, "content-type").unwrap(), "text/csv");
}

#[test]
fn new_response_gets_the_body_content_type() {
    let response = NivasaResponse::new(201, Body::text("saved"));
    assert_eq!(response.status(), 201);
    assert_eq!(response.body().as_bytes(), b"saved");
    assert_eq!(header(&response, "content-type").unwrap(), "text/plain; charset=utf-8");
    assert_eq!(header(&NivasaResponse::html("<p>"), "content-type").unwrap(), "text/html; charset=utf-8");
    assert_eq!(header(&NivasaResponse::json("{}"), "content-type").unwrap(), "application/json");
}

#[test]
fn redirects_carry_status_and_location() {
    let response = Redirect::temporary("/login").into_response();
    assert_eq!(response.status(), 302);
    assert!(response.body().is_empty());
    assert_eq!(header(&response, "location").unwrap(), "/login");
    assert_eq!(Redirect::permanent("/a").into_response().status(), 301);
    assert_eq!(Redirect::temporary_preserve_method("/a").into_response().status(), 307);
    assert_eq!(Redirect::permanent_preserve_method("/a").into_response().status(), 308);
}

#[test]
fn with_header_replaces_earlier_values() {
    let response = NivasaResponse::text("x").with_header("X-Trace", "1").with_header("x-trace", "2");
    assert_eq!(header(&response, "x-trace").unwrap(), "2");
}

#[test]
fn http_exception_maps_to_the_standard_error_body() {
    let response = HttpException::new(422, "Validation failed").into_response();
    assert_eq!(response.status(), 422);
    assert_eq!(header(&response, "content-type").unwrap(), "application/json");
    let json: serde_json::Value = serde_json::from_slice(&response.body().as_bytes()).unwrap();
    assert_eq!(json["statusCode"], serde_json::Value::from(422));
    assert_eq!(json["message"], serde_json::Value::from("Validation failed"));
    assert_eq!(json["error"], serde_json::Value::from("Unprocessable Entity"));
    assert_eq!(json.as_object().unwrap().len(), 3);
}

#[test]
fn http_exception_with_an_impossible_status_is_sent_as_500() {
    let response = HttpException::new(42, "odd").into_response();
    assert_eq!(response.status(), 500);
}

#[test]
fn http_exception_filter_maps_any_http_exception_to_the_standard_shape() {
    let filter = HttpExceptionFilter::new();
    assert!(filter.is_catch_all());
    let response = filter.catch(
        HttpException::unprocessable_entity("Validation failed")
            .with_details(r#"{"fields":{"email":"must be a valid email"}}"#),
    );

    assert_eq!(response.status(), 422);
    assert_eq!(header(&response, "content-type").unwrap(), "application/json");
    let json: serde_json::Value = serde_json::from_slice(&response.body().as_bytes()).unwrap();
    assert_eq!(json["statusCode"], serde_json::Value::from(422));
    assert_eq!(json["message"], "Validation failed");
    assert_eq!(json["error"], "Unprocessable Entity");
    assert_eq!(json.as_object().unwrap().len(), 3);
    assert!(json.get("details").is_none());
}

#[test]
fn status_pair_replaces_the_status() {
    let response = NivasaResponse::text("made").with_status(201);
    assert_eq!(response.status(), 201);
    assert_eq!(response.body().as_bytes(), b"made");
}

#[test]
fn result_success_maps_through_existing_response_wrappers() {
    let response = Result::<&str, HttpException>::Ok("ready").into_response();

    assert_eq!(response.status(), 200);
    assert_eq!(response.body().as_bytes(), b"ready");
    assert_eq!(header(&response, "content-type").unwrap(), "text/plain; charset=utf-8");
}

#[test]
fn result_error_maps_http_exception_to_json_response() {
    let response = Result::<&str, HttpException>::Err(
        HttpException::unprocessable_entity("Validation failed")
            .with_details(r#"{"fields":{"email":"must be a valid email"}}"#),
    )
    .into_response();

    assert_eq!(response.status(), 422);
    assert_eq!(header(&response, "content-type").unwrap(), "application/json");

    let json: serde_json::Value = serde_json::from_slice(&response.body().as_bytes()).unwrap();
    assert_eq!(json["statusCode"], serde_json::Value::from(422));
    assert_eq!(json["message"], "Validation failed");
    assert_eq!(json["error"], "Unprocessable Entity");
    assert_eq!(json["details"]["fields"]["email"], "must be a valid email");
    assert_eq!(json.as_object().unwrap().len(), 4);
}

#[test]
fn http_exception_summary_maps_to_the_standard_three_field_shape() -> Result<(), Box<dyn std::error::Error>> {
    let response = nivasa_http::response::exception_response(&HttpException::unprocessable_entity("Validation failed"));

    if response.status() != 422 {
        return Err("unexpected summary response status".into());
    }
    if header(&response, "content-type").unwrap() != "application/json" {
        return Err("unexpected summary response content type".into());
    }

    let json: serde_json::Value = serde_json::from_slice(&response.body().as_bytes())?;
    if json["statusCode"] != serde_json::Value::from(422) {
        return Err("unexpected summary statusCode".into());
    }
    if json["message"] != "Validation failed" {
        return Err("unexpected summary message".into());
    }
    if json["error"] != "Unprocessable Entity" {
        return Err("unexpected summary error".into());
    }
    if json.get("details").is_some() {
        return Err("summary payload must not include details".into());
    }

    Ok(())
}
