//! Controller action runners: take one value from a matched request, hand it
//! to the action, and answer `400` when the value cannot be had.
use vstd::prelude::*;
use crate::controller::{client_ip_of, controller_client_ip, header_bytes};
use crate::exception::HttpException;
use crate::headers::{value_text, HeaderMap};
use crate::request::{FromRequest, NivasaRequest, RequestExtractError, RequestView};
use crate::response::{
    built_header, detailed_exception_response_ok, exception_response_ok, ControllerResponse, IntoResponse,
    NivasaResponse, ResponseView,
};
use crate::upload::{
    extract_all, extract_one, multipart_boundary, FileInterceptor, FilesInterceptor, UploadErrorView,
    UploadedFile,
};

verus! {

/// The answer to a request whose value could not be had: the standard
/// `400` error body with `message`.
pub open spec fn refused(r: NivasaResponse, message: Seq<char>) -> bool {
    exception_response_ok(r@, 400, message)
}

/// `r` is the response of what `action` returns for `value`: the action's
/// result turned into a response by its own `IntoResponse`.
pub open spec fn action_answer<T, F: FnOnce(T) -> R, R: IntoResponse>(action: F, value: T, r: NivasaResponse) -> bool {
    exists|out: R| #[trigger] call_ensures(action, (value,), out) && call_ensures(R::into_response, (out,), r)
}

/// `r` answers with the handle as the action left it: its status and body,
/// and its headers with the body's default content type.
pub open spec fn answers_with_handle(r: ResponseView, h: ResponseView) -> bool {
    &&& r.status == h.status
    &&& r.body == h.body
    &&& forall|k: Seq<char>| #[trigger] r.header(k) == built_header(h.headers, h.body, k)
}

/// Runtime hook for custom controller parameter extractors.
pub trait ControllerParamExtractor<T> {
    /// Take the value from a request that route matching has already seen.
    fn extract(&self, request: &NivasaRequest) -> Result<T, HttpException>;
}

/// Runs `action` with a fresh response handle and answers with what it set.
pub fn run_controller_action<F>(request: &NivasaRequest, action: F) -> (r: NivasaResponse)
    where
        F: FnOnce(&NivasaRequest, &mut ControllerResponse),
    requires
        forall|req: &NivasaRequest, h: &mut ControllerResponse| call_requires(action, (req, h)),
    ensures
        exists|h: &mut ControllerResponse|
            #[trigger] call_ensures(action, (request, h), ()) && (*h)@.status == 200 && (*h)@.headers.len() == 0
                && (*h)@.body is Empty && answers_with_handle(r@, (*final(h))@),
{
    let mut response = ControllerResponse::new();
    action(request, &mut response);
    response.into_response()
}

/// The answer for an extracted value: the action's response, or `400` with
/// the extraction error's message.
pub fn respond_with_extracted<T, F, R>(extracted: Result<T, RequestExtractError>, action: F) -> (r: NivasaResponse)
    where
        F: FnOnce(T) -> R,
        R: IntoResponse,
    requires
        forall|t: T| call_requires(action, (t,)),
    ensures
        match extracted {
            Ok(value) => action_answer(action, value, r),
            Err(e) => refused(r, e.message_spec()),
        },
{
    match extracted {
        Ok(value) => action(value).into_response(),
        Err(error) => {
            let message = error.message();
            HttpException::bad_request(message.as_str()).into_response()
        },
    }
}

/// Runs `action` with a value taken from the request; `400` with the
/// extraction error's message when it cannot be taken.
pub fn run_controller_action_with_body<T, F, R>(request: &NivasaRequest, action: F) -> (r: NivasaResponse)
    where
        T: FromRequest,
        F: FnOnce(T) -> R,
        R: IntoResponse,
    requires
        forall|t: T| call_requires(action, (t,)),
    ensures
        exists|extracted: Result<T, RequestExtractError>|
            #[trigger] call_ensures(T::from_request, (request,), extracted) && match extracted {
                Ok(value) => action_answer(action, value, r),
                Err(e) => refused(r, e.message_spec()),
            },
{
    respond_with_extracted(request.extract::<T>(), action)
}

/// Runs `action` with the raw request.
pub fn run_controller_action_with_request<F, R>(request: &NivasaRequest, action: F) -> (r: NivasaResponse)
    where
        F: FnOnce(&NivasaRequest) -> R,
        R: IntoResponse,
    requires
        call_requires(action, (request,)),
    ensures
        exists|out: R| #[trigger] call_ensures(action, (request,), out) && call_ensures(R::into_response, (out,), r),
{
    action(request).into_response()
}

/// Runs `action` with all request headers.
pub fn run_controller_action_with_headers<F, R>(request: &NivasaRequest, action: F) -> (r: NivasaResponse)
    where
        F: FnOnce(HeaderMap) -> R,
        R: IntoResponse,
    requires
        forall|h: HeaderMap| call_requires(action, (h,)),
    ensures
        exists|headers: HeaderMap| headers@ == request@.headers && #[trigger] action_answer(action, headers, r),
{
    respond_with_extracted(request.extract::<HeaderMap>(), action)
}

/// Runs `action` with the client address of the request: the recorded
/// address, then the proxy headers; `400` when the request has none.
pub fn run_controller_action_with_ip<F, R>(request: &NivasaRequest, action: F) -> (r: NivasaResponse)
    where
        F: FnOnce(String) -> R,
        R: IntoResponse,
    requires
        forall|ip: String| call_requires(action, (ip,)),
    ensures
        client_ip_of(request@) is None ==> refused(r, "request client IP is missing"@),
{
    match controller_client_ip(request) {
        Some(ip) => action(ip).into_response(),
        None => HttpException::bad_request("request client IP is missing").into_response(),
    }
}

/// Runs `action` with the value of a custom extractor; its error is
/// answered as it is.
pub fn run_controller_action_with_custom_param<T, E, F, R>(
    request: &NivasaRequest,
    extractor: E,
    action: F,
) -> (r: NivasaResponse)
    where
        E: ControllerParamExtractor<T>,
        F: FnOnce(T) -> R,
        R: IntoResponse,
    requires
        forall|t: T| call_requires(action, (t,)),
    ensures
        exists|extracted: Result<T, HttpException>|
            #[trigger] call_ensures(E::extract, (&extractor, request), extracted) && match extracted {
                Ok(value) => action_answer(action, value, r),
                Err(e) => detailed_exception_response_ok(r@, e),
            },
{
    match extractor.extract(request) {
        Ok(value) => action(value).into_response(),
        Err(error) => error.into_response(),
    }
}

/// The content type a multipart upload is read with, or the message of the
/// `400` answer when the header is missing or not visible ASCII.
pub open spec fn upload_content_type(request: RequestView) -> Result<Seq<char>, Seq<char>> {
    match request.header(header_bytes("content-type"@)) {
        None => Err("request is missing header `content-type`"@),
        Some(v) => match value_text(v) {
            None => Err("invalid header `content-type`: header value is not valid ASCII"@),
            Some(t) => Ok(t),
        },
    }
}

fn upload_content_type_of(request: &NivasaRequest) -> (r: Result<String, HttpException>)
    ensures
        match upload_content_type(request@) {
            Ok(t) => r matches Ok(x) && x@ == t,
            Err(m) => r matches Err(e) && e.status_code == 400 && e.message@ == m && e.details is None,
        },
{
    proof {
        reveal_strlit("content-type");
    }
    match request.header("content-type") {
        None => Err(HttpException::bad_request("request is missing header `content-type`")),
        Some(v) => match v.to_str() {
            None => Err(HttpException::bad_request(
                "invalid header `content-type`: header value is not valid ASCII",
            )),
            Some(t) => Ok(t),
        },
    }
}

/// Runs `action` with the single file a multipart body holds for the
/// interceptor's field; `400` when the content type is missing or unreadable,
/// or with the upload error's message.
pub fn run_controller_action_with_file<F, R>(
    request: &NivasaRequest,
    interceptor: &FileInterceptor,
    action: F,
) -> (r: NivasaResponse)
    where
        F: FnOnce(UploadedFile) -> R,
        R: IntoResponse,
    requires
        forall|f: UploadedFile| call_requires(action, (f,)),
    ensures
        match upload_content_type(request@) {
            Err(m) => refused(r, m),
            Ok(ct) => match multipart_boundary(ct) {
                None => refused(r, UploadErrorView::MissingMultipartBoundary.message()),
                Some(b) => match extract_one(
                    b,
                    request@.body.bytes(),
                    interceptor.limits_view(),
                    interceptor.field(),
                ) {
                    Err(e) => refused(r, e.message()),
                    Ok(_) => true,
                },
            },
        },
{
    let content_type = match upload_content_type_of(request) {
        Ok(t) => t,
        Err(e) => {
            return e.into_response();
        },
    };
    let body = request.body().as_bytes();
    match interceptor.extract_from_bytes(content_type.as_str(), body.as_slice()) {
        Ok(file) => action(file).into_response(),
        Err(error) => {
            let message = error.message();
            HttpException::bad_request(message.as_str()).into_response()
        },
    }
}

/// Runs `action` with every file a multipart body holds for the
/// interceptor's field; `400` as for a single file.
pub fn run_controller_action_with_files<F, R>(
    request: &NivasaRequest,
    interceptor: &FilesInterceptor,
    action: F,
) -> (r: NivasaResponse)
    where
        F: FnOnce(Vec<UploadedFile>) -> R,
        R: IntoResponse,
    requires
        forall|fs: Vec<UploadedFile>| call_requires(action, (fs,)),
    ensures
        match upload_content_type(request@) {
            Err(m) => refused(r, m),
            Ok(ct) => match multipart_boundary(ct) {
                None => refused(r, UploadErrorView::MissingMultipartBoundary.message()),
                Some(b) => match extract_all(
                    b,
                    request@.body.bytes(),
                    interceptor.limits_view(),
                    interceptor.field(),
                ) {
                    Err(e) => refused(r, e.message()),
                    Ok(_) => true,
                },
            },
        },
{
    let content_type = match upload_content_type_of(request) {
        Ok(t) => t,
        Err(e) => {
            return e.into_response();
        },
    };
    let body = request.body().as_bytes();
    match interceptor.extract_from_bytes(content_type.as_str(), body.as_slice()) {
        Ok(files) => action(files).into_response(),
        Err(error) => {
            let message = error.message();
            HttpException::bad_request(message.as_str()).into_response()
        },
    }
}

} // verus!
