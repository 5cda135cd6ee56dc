use nivasa_http::{FileInterceptor, FilesInterceptor, MultipartLimits, UploadInterceptError, UploadedFile};

#[test]
fn uploaded_file_exposes_filename_content_type_and_bytes() {
    let file = UploadedFile::new("avatar.png", Some("image/png".to_string()), vec![1, 2, 3, 4]);

    assert_eq!(file.filename(), "avatar.png");
    assert_eq!(file.content_type(), Some("image/png"));
    assert_eq!(file.bytes(), &[1, 2, 3, 4]);
    assert_eq!(file.len(), 4);
    assert!(!file.is_empty());
}

#[test]
fn uploaded_file_round_trips_bytes() {
    let file = UploadedFile::new("notes.txt", None, b"hello".to_vec());

    assert_eq!(file.into_bytes(), b"hello".to_vec());
}

#[test]
fn multipart_limits_track_size_configuration() {
    let limits = MultipartLimits::new()
        .whole_stream(1024)
        .per_field(256)
        .field_limit("avatar", 128)
        .allowed_fields(&["avatar", "bio"]);

    assert_eq!(limits.whole_stream_limit(), Some(1024));
    assert_eq!(limits.per_field_limit(), Some(256));
    assert_eq!(limits.field_limit_for("avatar"), Some(128));
    assert_eq!(limits.field_limit_for("bio"), None);
    assert_eq!(limits.allowed_fields_list(), &["avatar".to_string(), "bio".to_string()]);
}

#[test]
fn multipart_limits_track_allowed_mime_types() {
    let limits = MultipartLimits::new().allowed_mime_types(&["image/png", "image/jpeg"]);

    assert_eq!(
        limits.allowed_mime_types_list(),
        &["image/png".to_string(), "image/jpeg".to_string()]
    );
    assert!(limits.allows_mime_type(Some("image/png")));
    assert!(!limits.allows_mime_type(Some("text/plain")));
    assert!(!limits.allows_mime_type(None));
}

fn multipart_body(parts: &[(&str, &str, Option<&str>, &[u8])]) -> (String, Vec<u8>) {
    let boundary = "X-BOUNDARY";
    let mut body = Vec::new();

    for (field_name, filename, content_type, bytes) in parts {
        body.extend_from_slice(format!("--{boundary}\r\n").as_bytes());
        body.extend_from_slice(
            format!(
                "Content-Disposition: form-data; name=\"{field_name}\"; filename=\"{filename}\"\r\n"
            )
            .as_bytes(),
        );
        if let Some(content_type) = content_type {
            body.extend_from_slice(format!("Content-Type: {content_type}\r\n").as_bytes());
        }
        body.extend_from_slice(b"\r\n");
        body.extend_from_slice(bytes);
        body.extend_from_slice(b"\r\n");
    }

    body.extend_from_slice(format!("--{boundary}--\r\n").as_bytes());
    (format!("multipart/form-data; boundary={boundary}"), body)
}

#[test]
fn file_interceptor_extracts_a_single_uploaded_file() {
    let (content_type, body) =
        multipart_body(&[("avatar", "avatar.png", Some("image/png"), b"png-data")]);

    let file = FileInterceptor::new("avatar")
        .extract_from_bytes(&content_type, &body)
        .expect("single file should parse");

    assert_eq!(file.filename(), "avatar.png");
    assert_eq!(file.content_type(), Some("image/png"));
    assert_eq!(file.bytes(), b"png-data");
}

#[test]
fn files_interceptor_extracts_multiple_files_for_one_field() {
    let (content_type, body) = multipart_body(&[
        ("attachments", "one.txt", Some("text/plain"), b"first"),
        ("attachments", "two.txt", Some("text/plain"), b"second"),
    ]);

    let files = FilesInterceptor::new("attachments")
        .extract_from_bytes(&content_type, &body)
        .expect("multiple files should parse");

    assert_eq!(files.len(), 2);
    assert_eq!(files[0].filename(), "one.txt");
    assert_eq!(files[1].filename(), "two.txt");
}

#[test]
fn file_interceptor_rejects_disallowed_mime_types() {
    let (content_type, body) =
        multipart_body(&[("avatar", "avatar.txt", Some("text/plain"), b"text-data")]);

    let error = FileInterceptor::new("avatar")
        .with_limits(MultipartLimits::new().allowed_mime_types(&["image/png"]))
        .extract_from_bytes(&content_type, &body)
        .expect_err("unexpected mime type should be rejected");

    assert_eq!(
        error,
        UploadInterceptError::DisallowedMimeType {
            mime_type: Some("text/plain".to_string()),
        }
    );
}

#[test]
fn files_interceptor_enforces_per_field_limits() {
    let (content_type, body) = multipart_body(&[("attachments", "large.bin", None, b"1234567890")]);

    let error = FilesInterceptor::new("attachments")
        .with_limits(MultipartLimits::new().per_field(4))
        .extract_from_bytes(&content_type, &body)
        .expect_err("oversized field should be rejected");

    assert_eq!(
        error,
        UploadInterceptError::FieldTooLarge {
            field: "attachments".to_string(),
            limit: 4,
            actual: 10,
        }
    );
}

#[test]
fn file_interceptor_requires_a_boundary() {
    let error = FileInterceptor::new("avatar")
        .extract_from_bytes("text/plain", b"")
        .expect_err("no boundary");
    assert_eq!(error, UploadInterceptError::MissingMultipartBoundary);
}

#[test]
fn file_interceptor_reports_a_missing_file() {
    let (content_type, body) = multipart_body(&[("other", "a.txt", None, b"x")]);
    let error = FileInterceptor::new("avatar")
        .extract_from_bytes(&content_type, &body)
        .expect_err("field absent");
    assert_eq!(error, UploadInterceptError::MissingFile { field: "avatar".to_string() });
}

#[test]
fn file_interceptor_rejects_two_files_for_one_field() {
    let (content_type, body) = multipart_body(&[
        ("avatar", "a.png", None, b"1"),
        ("avatar", "b.png", None, b"2"),
    ]);
    let error = FileInterceptor::new("avatar")
        .extract_from_bytes(&content_type, &body)
        .expect_err("two files");
    assert_eq!(error, UploadInterceptError::TooManyFiles { field: "avatar".to_string(), count: 2 });
}

#[test]
fn upload_error_messages_name_the_field() {
    let msg = UploadInterceptError::MissingFile { field: "avatar".to_string() }.message();
    assert!(msg.contains("avatar"));
}

#[test]
fn single_and_multi_file_extraction_agree_on_one_payload() {
    let (content_type, body) = multipart_body(&[("avatar", "a.png", Some("image/png"), b"a")]);
    let one = FileInterceptor::new("avatar").extract_from_bytes(&content_type, &body).unwrap();
    let all = FilesInterceptor::new("avatar").extract_from_bytes(&content_type, &body).unwrap();
    assert_eq!(all, vec![one]);

    let (content_type, body) = multipart_body(&[
        ("avatar", "a.png", Some("image/png"), b"a"),
        ("avatar", "b.png", Some("image/png"), b"b"),
    ]);
    let all = FilesInterceptor::new("avatar").extract_from_bytes(&content_type, &body).unwrap();
    assert_eq!(all.len(), 2);
    assert_eq!(
        FileInterceptor::new("avatar").extract_from_bytes(&content_type, &body),
        Err(UploadInterceptError::TooManyFiles { field: "avatar".to_string(), count: 2 })
    );

    let (content_type, body) = multipart_body(&[("other", "c.txt", None, b"c")]);
    let missing = UploadInterceptError::MissingFile { field: "avatar".to_string() };
    assert_eq!(FileInterceptor::new("avatar").extract_from_bytes(&content_type, &body), Err(missing.clone()));
    assert_eq!(FilesInterceptor::new("avatar").extract_from_bytes(&content_type, &body), Err(missing));
}
