//! The decisions of request dispatch.
//!
//! Dispatch alternates outside work (middleware, route lookup, guards,
//! pipes, interceptors, the handler, exception filters) with decisions on
//! their outcomes. Each decision here takes the pipeline and the outcome of
//! one piece of outside work, moves the pipeline along the lifecycle, and
//! says what comes next: go on, answer with a response, or hand an exception
//! to the exception filters. Every response leaves through
//! `finalize_response`, which adds the request id and the CORS headers.
use vstd::prelude::*;
use vstd::string::*;
use vstd::utf8::*;
use crate::body::{Body, BodyView};
use crate::controller::{trimmed_header, trimmed_text, opt_chars};
use crate::cors::{apply_cors_headers_to_response, cors_header, join, join_strings, opt_text, put_text_header, text_header_bytes, CorsOptions};
use crate::exception::HttpException;
use crate::guards::{strings_view, RequestContext, RequestValue};
use crate::headers::{lookup_header, valid_value, value_text};
use crate::pipeline::{
    guard_chain_event, next_state, route_event, GuardExecutionOutcome, GuardVerdict,
    NivasaRequestEvent, NivasaRequestState, RequestPipeline, RouteDispatchOutcome,
};
use crate::request::{NivasaRequest, RequestView};
use crate::text::{trim, trim_chars};
use crate::response::{built_header, exception_response, exception_response_ok, NivasaResponse, ResponseView};

verus! {

/// A response with `status`, the text body `text`, and its default content type.
pub open spec fn text_response(r: ResponseView, status: u16, text: Seq<char>) -> bool {
    &&& r.status == status
    &&& r.body == BodyView::Text(text)
    &&& forall|k: Seq<char>| #[trigger] r.header(k) == built_header(Seq::empty(), BodyView::Text(text), k)
}

/// A `500` text response with `message`.
pub fn internal_error(message: &str) -> (r: NivasaResponse)
    ensures
        text_response(r@, 500, message@),
{
    NivasaResponse::new(500, Body::text(message))
}

/// What dispatch does after a decision.
pub enum DispatchStep {
    /// Go on to the next piece of work.
    Continue,
    /// Answer with this response.
    Respond(NivasaResponse),
    /// Hand this exception to the exception filters.
    HandleException(HttpException),
}

// ---------------------------------------------------------------------------
// Request identity and context
// ---------------------------------------------------------------------------

/// The trimmed, non-empty text of the request header under the canonical
/// name `name`.
pub open spec fn request_header_text(request: RequestView, name: Seq<char>) -> Option<Seq<char>> {
    trimmed_header(
        match lookup_header(request.headers, name) {
            Some(v) => value_text(v),
            None => None,
        },
    )
}

/// The trimmed, non-empty text of the request header stored under the
/// canonical name `name`.
pub fn request_header_value(request: &NivasaRequest, name: &str) -> (r: Option<String>)
    ensures
        match r {
            Some(s) => request_header_text(request@, name@) == Some(s@),
            None => request_header_text(request@, name@) is None,
        },
{
    let headers = request.headers();
    let text = headers.text_of(name);
    assert(headers.lookup(name@) == lookup_header(request@.headers, name@));
    match trimmed_text(text) {
        Some(v) => Some(crate::text::string_of(v.as_slice())),
        None => None,
    }
}

/// The request with its `x-request-id` header set to `request_id`.
pub fn seed_request_identity(request: NivasaRequest, request_id: &str) -> (r: NivasaRequest)
    ensures
        r@ == (RequestView { headers: r@.headers, ..request@ }),
        forall|k: Seq<char>|
            #[trigger] lookup_header(r@.headers, k) == if k == "x-request-id"@ && valid_value(
                request_id.spec_bytes(),
            ) {
                Some(request_id.spec_bytes())
            } else {
                lookup_header(request@.headers, k)
            },
{
    proof {
        reveal_strlit("x-request-id");
    }
    let mut r = request;
    r.set_known_header("x-request-id", request_id);
    r
}

/// The request with its `x-module-name` header set to the module's name, if any.
pub fn attach_module_name(request: NivasaRequest, module_name: Option<&str>) -> (r: NivasaRequest)
    ensures
        r@ == (RequestView { headers: r@.headers, ..request@ }),
        forall|k: Seq<char>|
            #[trigger] lookup_header(r@.headers, k) == match module_name {
                Some(m) => if k == "x-module-name"@ && valid_value(m.spec_bytes()) {
                    Some(m.spec_bytes())
                } else {
                    lookup_header(request@.headers, k)
                },
                None => lookup_header(request@.headers, k),
            },
{
    proof {
        reveal_strlit("x-module-name");
    }
    let mut r = request;
    match module_name {
        Some(m) => r.set_known_header("x-module-name", m),
        None => {},
    }
    r
}

/// The response with its `x-request-id` header set, when there is an id.
pub fn with_request_id(response: NivasaResponse, request_id: Option<&str>) -> (r: NivasaResponse)
    ensures
        r@.status == response@.status,
        r@.body == response@.body,
        forall|k: Seq<char>|
            #[trigger] r@.header(k) == match request_id {
                Some(id) => if k == "x-request-id"@ && valid_value(id.spec_bytes()) {
                    Some(id.spec_bytes())
                } else {
                    response@.header(k)
                },
                None => response@.header(k),
            },
{
    proof {
        reveal_strlit("x-request-id");
    }
    let mut r = response;
    match request_id {
        Some(id) => r.set_known_valid_header("x-request-id", id),
        None => {},
    }
    r
}

/// The header `k` of a finalized response.
pub open spec fn finalized_header(
    before: ResponseView,
    cors: Option<CorsOptions>,
    origin: Option<Seq<char>>,
    request_id: Option<Seq<char>>,
    k: Seq<char>,
) -> Option<Seq<u8>> {
    let id_header = match request_id {
        Some(id) => if k == "x-request-id"@ && valid_value(encode_utf8(id)) {
            Some(encode_utf8(id))
        } else {
            before.header(k)
        },
        None => before.header(k),
    };
    match cors {
        None => id_header,
        Some(c) => {
            let cred = match crate::cors::allow_credentials_text(c) {
                Some(t) => text_header_bytes(t),
                None => None,
            };
            let orig = match crate::cors::allow_origin_text(c, origin) {
                Some(t) => text_header_bytes(t),
                None => None,
            };
            if k == "access-control-allow-credentials"@ && cred is Some {
                cred
            } else if k == "access-control-allow-origin"@ && orig is Some {
                orig
            } else {
                id_header
            }
        },
    }
}

/// The response as sent: the request id, then the CORS headers, added.
pub fn finalize_response(
    response: NivasaResponse,
    cors: Option<&CorsOptions>,
    request_origin: Option<&str>,
    request_id: Option<&str>,
) -> (r: NivasaResponse)
    ensures
        r@.status == response@.status,
        r@.body == response@.body,
        forall|k: Seq<char>|
            #[trigger] r@.header(k) == finalized_header(
                response@,
                match cors {
                    Some(c) => Some(*c),
                    None => None,
                },
                opt_text(request_origin),
                opt_text(request_id),
                k,
            ),
{
    let ghost v0 = response@;
    let with_id = with_request_id(response, request_id);
    let ghost v1 = with_id@;
    let r = apply_cors_headers_to_response(with_id, cors, request_origin);
    assert forall|k: Seq<char>|
        #[trigger] r@.header(k) == finalized_header(
            v0,
            match cors {
                Some(c) => Some(*c),
                None => None,
            },
            opt_text(request_origin),
            opt_text(request_id),
            k,
        ) by {
        assert(r@.header(k) == cors_header(
            v1,
            match cors {
                Some(c) => Some(*c),
                None => None,
            },
            opt_text(request_origin),
            k,
        ));
        assert(v1.header(k) == match request_id {
            Some(id) => if k == "x-request-id"@ && valid_value(id.spec_bytes()) {
                Some(id.spec_bytes())
            } else {
                v0.header(k)
            },
            None => v0.header(k),
        });
    }
    r
}

/// The custom data that guards and filters see for a request: its method
/// and path, and its authorization, request id, user id and module name
/// headers when they are set (trimmed, non-empty).
pub open spec fn request_context_ok(rc: RequestContext, request: RequestView) -> bool {
    &&& custom_str(rc, "request_method"@) == Some(request.method)
    &&& custom_str(rc, "request_path"@) == Some(request.path)
    &&& custom_str(rc, "authorization"@) == request_header_text(request, "authorization"@)
    &&& custom_str(rc, "request_id"@) == request_header_text(request, "x-request-id"@)
    &&& custom_str(rc, "user_id"@) == request_header_text(request, "x-user-id"@)
    &&& custom_str(rc, "module_name"@) == request_header_text(request, "x-module-name"@)
    &&& forall|k: Seq<char>| #[trigger] rc.handler(k) is None
    &&& forall|k: Seq<char>| #[trigger] rc.class(k) is None
}

/// The text of a string custom value.
pub open spec fn custom_str(rc: RequestContext, key: Seq<char>) -> Option<Seq<char>> {
    match rc.custom(key) {
        Some(RequestValue::Str(s)) => Some(s@),
        _ => None,
    }
}


/// The shared request context for guards and exception filters.
pub fn request_context_from_request(request: &NivasaRequest) -> (r: RequestContext)
    ensures
        request_context_ok(r, request@),
{
    proof {
        reveal_strlit("request_method");
        reveal_strlit("request_path");
        reveal_strlit("authorization");
        reveal_strlit("request_id");
        reveal_strlit("user_id");
        reveal_strlit("module_name");
        reveal_strlit("x-request-id");
        reveal_strlit("x-user-id");
        reveal_strlit("x-module-name");
    }
    let mut rc = RequestContext::new();
    rc.set_custom_data("request_method", RequestValue::Str(request.method().to_owned()));
    rc.set_custom_data("request_path", RequestValue::Str(request.path().to_owned()));
    let ghost c0 = rc;
    let auth = request_header_value(request, "authorization");
    match auth {
        Some(a) => rc.set_custom_data("authorization", RequestValue::Str(a)),
        None => {},
    }
    let ghost c1 = rc;
    let id = request_header_value(request, "x-request-id");
    match id {
        Some(a) => rc.set_custom_data("request_id", RequestValue::Str(a)),
        None => {},
    }
    let ghost c2 = rc;
    let user = request_header_value(request, "x-user-id");
    match user {
        Some(a) => rc.set_custom_data("user_id", RequestValue::Str(a)),
        None => {},
    }
    let ghost c3 = rc;
    let module = request_header_value(request, "x-module-name");
    match module {
        Some(a) => rc.set_custom_data("module_name", RequestValue::Str(a)),
        None => {},
    }
    assert("request_method"@.len() == 14 && "request_path"@.len() == 12 && "authorization"@.len() == 13
        && "request_id"@.len() == 10 && "user_id"@.len() == 7 && "module_name"@.len() == 11);
    assert(custom_str(rc, "request_method"@) == Some(request@.method));
    assert(custom_str(rc, "request_path"@) == Some(request@.path));
    assert(custom_str(rc, "authorization"@) == request_header_text(request@, "authorization"@));
    assert(custom_str(rc, "request_id"@) == request_header_text(request@, "x-request-id"@));
    assert(custom_str(rc, "user_id"@) == request_header_text(request@, "x-user-id"@));
    assert(custom_str(rc, "module_name"@) == request_header_text(request@, "x-module-name"@));
    rc
}


// ---------------------------------------------------------------------------
// Decisions on the outcomes of outside work
// ---------------------------------------------------------------------------

/// What a middleware did with a request: passed it on (possibly changed), or
/// answered it itself.
pub enum MiddlewareOutcome {
    Forwarded(NivasaRequest),
    ShortCircuited { request: NivasaRequest, response: NivasaResponse },
}

/// One step of running middleware in order: the request a middleware
/// forwarded goes on to the next middleware (`Ok`); a middleware that
/// answered ends the sequence with its outcome (`Err`).
pub fn continue_middleware_sequence(outcome: MiddlewareOutcome) -> (r: Result<NivasaRequest, MiddlewareOutcome>)
    ensures
        match outcome {
            MiddlewareOutcome::Forwarded(request) => r matches Ok(next) && next == request,
            MiddlewareOutcome::ShortCircuited { .. } => r matches Err(answer) && answer == outcome,
        },
{
    match outcome {
        MiddlewareOutcome::Forwarded(request) => Ok(request),
        MiddlewareOutcome::ShortCircuited { request, response } => Err(
            MiddlewareOutcome::ShortCircuited { request, response },
        ),
    }
}

/// After the global middleware: a pipeline ready for route matching, or the
/// middleware's own answer.
pub fn after_global_middleware(outcome: MiddlewareOutcome) -> (r: Result<RequestPipeline, NivasaResponse>)
    ensures
        match outcome {
            MiddlewareOutcome::Forwarded(request) => r matches Ok(p) && p.state()
                == NivasaRequestState::RouteMatching && p.request_view() == request@,
            MiddlewareOutcome::ShortCircuited { response, .. } => r matches Err(resp) && resp@
                == response@,
        },
{
    match outcome {
        MiddlewareOutcome::Forwarded(request) => {
            let mut pipeline = RequestPipeline::new(request);
            let _ = pipeline.parse_request();
            let _ = pipeline.complete_middleware();
            Ok(pipeline)
        },
        MiddlewareOutcome::ShortCircuited { request, response } => {
            let mut pipeline = RequestPipeline::new(request);
            let _ = pipeline.parse_request();
            let _ = pipeline.fail_middleware();
            Err(response)
        },
    }
}

/// The state a lifecycle event leads to, or the state unchanged when refused.
pub open spec fn after_event(state: NivasaRequestState, event: NivasaRequestEvent) -> NivasaRequestState {
    match next_state(state, event) {
        Some(n) => n,
        None => state,
    }
}

/// The step answers with a text response of `status` and `text`.
pub open spec fn responds_text(step: DispatchStep, status: u16, text: Seq<char>) -> bool {
    match step {
        DispatchStep::Respond(resp) => text_response(resp@, status, text),
        _ => false,
    }
}

/// The `405` answer listing the allowed methods in `allow`.
pub open spec fn method_not_allowed_ok(r: ResponseView, allowed: Seq<Seq<char>>) -> bool {
    let text = join(allowed, ", "@);
    &&& r.status == 405
    &&& r.body == BodyView::Text("method not allowed"@)
    &&& forall|k: Seq<char>|
        #[trigger] r.header(k) == if k == "allow"@ && valid_value(encode_utf8(text)) {
            Some(encode_utf8(text))
        } else {
            built_header(Seq::empty(), BodyView::Text("method not allowed"@), k)
        }
}

/// After route lookup: go on to the guards for a match; answer `404` or
/// `405` otherwise.
pub fn after_route_lookup(pipeline: &mut RequestPipeline, outcome: RouteDispatchOutcome) -> (r: DispatchStep)
    ensures
        final(pipeline).state() == after_event(old(pipeline).state(), route_event(outcome)),
        final(pipeline).request_view() == (RequestView {
            path_params: match outcome {
                RouteDispatchOutcome::Matched(Some(c)) => Some(c@),
                _ => None,
            },
            ..old(pipeline).request_view()
        }),
        next_state(old(pipeline).state(), route_event(outcome)) is None ==> responds_text(
            r,
            500,
            "request pipeline route transition failed"@,
        ),
        next_state(old(pipeline).state(), route_event(outcome)) is Some ==> match outcome {
            RouteDispatchOutcome::Matched(_) => r is Continue,
            RouteDispatchOutcome::NotFound => responds_text(r, 404, "not found"@),
            RouteDispatchOutcome::MethodNotAllowed { allowed_methods } => match r {
                DispatchStep::Respond(resp) => method_not_allowed_ok(resp@, strings_view(allowed_methods@)),
                _ => false,
            },
        },
{
    let not_found = match &outcome {
        RouteDispatchOutcome::NotFound => true,
        _ => false,
    };
    let (lookup, answer) = match outcome {
        RouteDispatchOutcome::MethodNotAllowed { allowed_methods } => (
            RouteDispatchOutcome::MethodNotAllowed { allowed_methods: Vec::new() },
            Some(allowed_methods),
        ),
        other => (other, None),
    };
    match pipeline.match_route(lookup) {
        Err(_) => DispatchStep::Respond(internal_error("request pipeline route transition failed")),
        Ok(_) => {
            if not_found {
                DispatchStep::Respond(NivasaResponse::new(404, Body::text("not found")))
            } else {
                match answer {
                    Some(allowed) => {
                        proof {
                            reveal_strlit("allow");
                            reveal_strlit(", ");
                        }
                        let joined = join_strings(allowed.as_slice(), ", ");
                        let mut resp = NivasaResponse::new(405, Body::text("method not allowed"));
                        resp.set_known_valid_header("allow", joined.as_str());
                        DispatchStep::Respond(resp)
                    },
                    None => DispatchStep::Continue,
                }
            }
        },
    }
}


/// After a sequence of route or module middleware: go on with the request
/// it forwarded, or answer with the response of the one that answered.
pub fn after_middleware_sequence(pipeline: &mut RequestPipeline, outcome: MiddlewareOutcome) -> (r: DispatchStep)
    ensures
        final(pipeline).state() == old(pipeline).state(),
        match outcome {
            MiddlewareOutcome::Forwarded(request) => r is Continue && final(pipeline).request_view()
                == request@,
            MiddlewareOutcome::ShortCircuited { response, .. } => (match r {
                DispatchStep::Respond(resp) => resp@ == response@,
                _ => false,
            }) && final(pipeline).request_view() == old(pipeline).request_view(),
        },
{
    match outcome {
        MiddlewareOutcome::Forwarded(request) => {
            pipeline.replace_request(request);
            DispatchStep::Continue
        },
        MiddlewareOutcome::ShortCircuited { response, .. } => DispatchStep::Respond(response),
    }
}

/// The answer to a request a guard denied: the standard `403` error body.
pub open spec fn denied_ok(r: ResponseView) -> bool {
    exception_response_ok(r, 403, "request denied by guard"@)
}

/// After the guards: go on (pre-handler interceptors started) when all
/// allow; answer `403` when one denies; hand its exception on when one fails.
pub fn after_guards(pipeline: &mut RequestPipeline, verdicts: &[GuardVerdict]) -> (r: DispatchStep)
    ensures
        final(pipeline).request_view() == old(pipeline).request_view(),
        ({
            let s0 = old(pipeline).state();
            let ev = guard_chain_event(verdicts@);
            match next_state(s0, ev) {
                None => responds_text(r, 500, "request pipeline guard transition failed"@)
                    && final(pipeline).state() == s0,
                Some(s1) => match crate::pipeline::first_refusal(verdicts@) {
                    None => match next_state(s1, NivasaRequestEvent::InterceptorsPreComplete) {
                        Some(s2) => r is Continue && final(pipeline).state() == s2,
                        None => responds_text(r, 500, "request pipeline interceptor transition failed"@)
                            && final(pipeline).state() == s1,
                    },
                    Some(i) => final(pipeline).state() == s1 && match verdicts@[i] {
                        GuardVerdict::Error(e) => r == DispatchStep::HandleException(e),
                        _ => match r {
                            DispatchStep::Respond(resp) => denied_ok(resp@),
                            _ => false,
                        },
                    },
                },
            }
        }),
{
    proof {
        crate::pipeline::lemma_guard_chain_all_allow(verdicts@);
    }
    match pipeline.evaluate_guard_chain(verdicts) {
        Err(_) => DispatchStep::Respond(internal_error("request pipeline guard transition failed")),
        Ok(GuardExecutionOutcome::Passed) => {
            match pipeline.complete_interceptors_pre() {
                Ok(_) => DispatchStep::Continue,
                Err(_) => DispatchStep::Respond(
                    internal_error("request pipeline interceptor transition failed"),
                ),
            }
        },
        Ok(GuardExecutionOutcome::Denied) => {
            let e = HttpException::forbidden("request denied by guard");
            DispatchStep::Respond(exception_response(&e))
        },
        Ok(GuardExecutionOutcome::Error(e)) => DispatchStep::HandleException(e),
    }
}

/// After the global pipes: go on with the transformed body, or hand the
/// pipe's exception on.
pub fn after_pipes(pipeline: &mut RequestPipeline, result: Result<Body, HttpException>) -> (r: DispatchStep)
    ensures
        match result {
            Ok(body) => final(pipeline).request_view() == (RequestView {
                body: body@,
                ..old(pipeline).request_view()
            }) && final(pipeline).state() == after_event(
                old(pipeline).state(),
                NivasaRequestEvent::PipesComplete,
            ) && if next_state(old(pipeline).state(), NivasaRequestEvent::PipesComplete) is Some {
                r is Continue
            } else {
                responds_text(r, 500, "request pipeline pipe transition failed"@)
            },
            Err(e) => final(pipeline).request_view() == old(pipeline).request_view()
                && final(pipeline).state() == after_event(
                old(pipeline).state(),
                NivasaRequestEvent::ErrorPipe,
            ) && if next_state(old(pipeline).state(), NivasaRequestEvent::ErrorPipe) is Some {
                r == DispatchStep::HandleException(e)
            } else {
                responds_text(r, 500, "request pipeline pipe transition failed"@)
            },
        },
{
    match result {
        Ok(body) => {
            pipeline.set_request_body(body);
            match pipeline.complete_pipes() {
                Ok(_) => DispatchStep::Continue,
                Err(_) => DispatchStep::Respond(internal_error("request pipeline pipe transition failed")),
            }
        },
        Err(e) => {
            match pipeline.fail_pipes() {
                Ok(_) => DispatchStep::HandleException(e),
                Err(_) => DispatchStep::Respond(internal_error("request pipeline pipe transition failed")),
            }
        },
    }
}


/// A byte as JSON: its decimal digits.
pub open spec fn bytes_json_items(b: Seq<u8>) -> Seq<Seq<char>> {
    Seq::new(b.len(), |i: int| crate::text::decimal(b[i] as nat))
}

/// The JSON value of a response body, as the interceptor mapping wraps it:
/// `null` for no body, a JSON string for text, the document itself for JSON,
/// and an array of numbers for bytes.
pub open spec fn body_data_json(body: BodyView) -> Seq<char> {
    match body {
        BodyView::Empty => "null"@,
        BodyView::Text(t) => crate::exception::json_quoted(t),
        BodyView::Html(t) => crate::exception::json_quoted(t),
        BodyView::Json(t) => t,
        BodyView::Bytes(b) => "["@ + join(bytes_json_items(b), ","@) + "]"@,
    }
}

/// The header `k` after mapping: JSON content type, and every other header
/// whose value is text kept.
pub open spec fn mapped_header(before: ResponseView, k: Seq<char>) -> Option<Seq<u8>> {
    if k == "content-type"@ {
        Some(encode_utf8("application/json"@))
    } else {
        match before.header(k) {
            Some(v) => match value_text(v) {
                Some(t) => if valid_value(encode_utf8(t)) {
                    Some(encode_utf8(t))
                } else {
                    None
                },
                None => None,
            },
            None => None,
        }
    }
}

fn bytes_json(b: &[u8]) -> (r: String)
    ensures
        r@ == "["@ + join(bytes_json_items(b@), ","@) + "]"@,
{
    proof {
        reveal_strlit("[");
        reveal_strlit("]");
        reveal_strlit(",");
    }
    let ghost items = bytes_json_items(b@);
    let mut out = String::from_str("[");
    let mut i: usize = 0;
    while i < b.len()
        invariant
            i <= b@.len(),
            items == bytes_json_items(b@),
            out@ == "["@ + join(items.take(i as int), ","@),
        decreases b@.len() - i,
    {
        assert(items.take(i + 1).drop_last() =~= items.take(i as int));
        if i > 0 {
            out.append(",");
        }
        let d = crate::text::decimal_string(b[i] as u64);
        out.append(d.as_str());
        proof {
            if i == 0 {
                assert(items.take(1) =~= seq![items[0]]);
            }
        }
        i += 1;
    }
    assert(items.take(b@.len() as int) =~= items);
    out.append("]");
    out
}

proof fn lemma_lookup_some_iff_present(es: Seq<(Seq<char>, Seq<u8>)>, k: Seq<char>)
    ensures
        lookup_header(es, k) is Some <==> exists|j: int| 0 <= j < es.len() && (#[trigger] es[j]).0 == k,
    decreases es.len(),
{
    if es.len() > 0 {
        lemma_lookup_some_iff_present(es.drop_first(), k);
        if exists|j: int| 0 <= j < es.len() && (#[trigger] es[j]).0 == k {
            let j = choose|j: int| 0 <= j < es.len() && (#[trigger] es[j]).0 == k;
            if j > 0 {
                assert(es.drop_first()[j - 1] == es[j]);
            }
        }
        if exists|j: int| 0 <= j < es.drop_first().len() && (#[trigger] es.drop_first()[j]).0 == k {
            let j = choose|j: int| 0 <= j < es.drop_first().len() && (#[trigger] es.drop_first()[j]).0 == k;
            assert(es[j + 1] == es.drop_first()[j]);
        }
    }
}

/// The response an interceptor chain's result is sent as: the same status,
/// `{"data": <body>}` as a JSON body, and the text headers kept.
pub fn map_interceptor_response(response: NivasaResponse) -> (r: NivasaResponse)
    ensures
        r@.status == response@.status,
        r@.body == BodyView::Json("{\"data\":"@ + body_data_json(response@.body) + "}"@),
        forall|k: Seq<char>| #[trigger] r@.header(k) == mapped_header(response@, k),
{
    proof {
        reveal_strlit("{\"data\":");
        reveal_strlit("}");
        reveal_strlit("null");
        reveal_strlit("content-type");
        reveal_strlit("application/json");
    }
    let ghost v0 = response@;
    let (status, headers, body) = response.into_parts();
    let data = match &body {
        Body::Empty => String::from_str("null"),
        Body::Text(t) => crate::exception::json_string(t.as_str()),
        Body::Html(t) => crate::exception::json_string(t.as_str()),
        Body::Json(t) => t.clone(),
        Body::Bytes(b) => bytes_json(b.as_slice()),
    };
    let mut mapped = String::from_str("{\"data\":");
    mapped.append(data.as_str());
    mapped.append("}");
    let mut r = NivasaResponse::from_parts(status, crate::headers::HeaderMap::new(), Body::json(mapped.as_str()));
    r.set_known_header("content-type", "application/json");
    let entries = headers.entries();
    let ghost es = headers@;
    let mut i: usize = 0;
    while i < entries.len()
        invariant
            i <= entries@.len(),
            es == headers@,
            es == v0.headers,
            crate::headers::header_entries_view(entries@) == es,
            r@.status == status,
            r@.body == BodyView::Json(mapped@),
            forall|k: Seq<char>|
                #[trigger] r@.header(k) == if k == "content-type"@ {
                    Some(encode_utf8("application/json"@))
                } else if exists|j: int| 0 <= j < i && (#[trigger] es[j]).0 == k {
                    mapped_header(v0, k)
                } else {
                    None
                },
        decreases entries@.len() - i,
    {
        let name = &entries[i].0;
        assert(es[i as int].0 == name@);
        let ghost before = r@;
        if !crate::text::str_eq(name.as_str(), "content-type") {
            match headers.get_canonical(name) {
                Some(v) => match v.to_str() {
                    Some(t) => r.set_known_valid_header(name.as_str(), t.as_str()),
                    None => {},
                },
                None => {},
            }
        }
        proof {
            lemma_lookup_some_iff_present(es, name@);
        }
        assert forall|k: Seq<char>|
            #[trigger] r@.header(k) == if k == "content-type"@ {
                Some(encode_utf8("application/json"@))
            } else if exists|j: int| 0 <= j < i + 1 && (#[trigger] es[j]).0 == k {
                mapped_header(v0, k)
            } else {
                None
            } by {
            if k != "content-type"@ && k == name@ {
                assert(headers.lookup(k) == v0.header(k));
                assert(es[i as int].0 == k);
            }
            if k != name@ {
                if exists|j: int| 0 <= j < i + 1 && (#[trigger] es[j]).0 == k {
                    let j = choose|j: int| 0 <= j < i + 1 && (#[trigger] es[j]).0 == k;
                    assert(j < i);
                }
            }
        }
        i += 1;
    }
    assert forall|k: Seq<char>| #[trigger] r@.header(k) == mapped_header(v0, k) by {
        lemma_lookup_some_iff_present(es, k);
        assert(v0.header(k) == lookup_header(es, k));
    }
    r
}


/// `after` is `before` as the interceptor mapping sends it.
pub open spec fn mapped_ok(after: ResponseView, before: ResponseView) -> bool {
    &&& after.status == before.status
    &&& after.body == BodyView::Json("{\"data\":"@ + body_data_json(before.body) + "}"@)
    &&& forall|k: Seq<char>| #[trigger] after.header(k) == mapped_header(before, k)
}

/// The state after sending `events` in order, stopping at the first one refused.
pub open spec fn advance_while_accepted(state: NivasaRequestState, events: Seq<NivasaRequestEvent>) -> NivasaRequestState
    decreases events.len(),
{
    if events.len() == 0 {
        state
    } else {
        match next_state(state, events[0]) {
            Some(n) => advance_while_accepted(n, events.drop_first()),
            None => state,
        }
    }
}

/// The events after a handler that ran to completion.
pub open spec fn completion_events() -> Seq<NivasaRequestEvent> {
    seq![
        NivasaRequestEvent::HandlerComplete,
        NivasaRequestEvent::InterceptorsPostComplete,
        NivasaRequestEvent::ResponseSent,
    ]
}

/// The events after an interceptor failure.
pub open spec fn interceptor_failure_events(handler_called: bool) -> Seq<NivasaRequestEvent> {
    if handler_called {
        seq![NivasaRequestEvent::HandlerComplete, NivasaRequestEvent::ErrorInterceptorPost]
    } else {
        seq![NivasaRequestEvent::ErrorInterceptor]
    }
}

/// How the interceptors and the handler ended.
pub enum HandlerOutcome {
    /// The interceptors called the handler; the response they returned.
    Completed(NivasaResponse),
    /// An interceptor answered without calling the handler.
    ShortCircuited(NivasaResponse),
    /// An interceptor or the handler failed, after or before the handler was called.
    Failed { error: HttpException, handler_called: bool },
    /// No interceptors: the handler's response, or `None` when it did not return one.
    Direct(Option<NivasaResponse>),
}

/// Send `events` in order, stopping at the first refused; whether all were accepted.
fn send_all(pipeline: &mut RequestPipeline, events: &[NivasaRequestEvent]) -> (r: bool)
    ensures
        final(pipeline).request_view() == old(pipeline).request_view(),
        final(pipeline).state() == advance_while_accepted(old(pipeline).state(), events@),
        r == crate::pipeline::run_events(old(pipeline).state(), events@) is Some,
{
    let mut i: usize = 0;
    assert(events@.skip(0) =~= events@);
    while i < events.len()
        invariant
            i <= events@.len(),
            pipeline.request_view() == old(pipeline).request_view(),
            advance_while_accepted(old(pipeline).state(), events@) == advance_while_accepted(
                pipeline.state(),
                events@.skip(i as int),
            ),
            crate::pipeline::run_events(old(pipeline).state(), events@) == crate::pipeline::run_events(
                pipeline.state(),
                events@.skip(i as int),
            ),
        decreases events@.len() - i,
    {
        assert(events@.skip(i as int).drop_first() =~= events@.skip(i + 1));
        assert(events@.skip(i as int)[0] == events@[i as int]);
        match pipeline.send_event(events[i]) {
            Ok(_) => {},
            Err(_) => {
                return false;
            },
        }
        i += 1;
    }
    assert(events@.skip(i as int) =~= Seq::<NivasaRequestEvent>::empty());
    true
}

/// After the interceptors and the handler: answer with the response (mapped
/// when interceptors ran), hand a failure to the exception filters, or
/// answer `500` when the handler returned nothing or the lifecycle refused
/// a step.
pub fn after_handler(pipeline: &mut RequestPipeline, outcome: HandlerOutcome) -> (r: DispatchStep)
    ensures
        final(pipeline).request_view() == old(pipeline).request_view(),
        ({
            let s0 = old(pipeline).state();
            match outcome {
                HandlerOutcome::Completed(resp) => final(pipeline).state() == advance_while_accepted(
                    s0,
                    completion_events(),
                ) && if crate::pipeline::run_events(s0, completion_events()) is Some {
                    match r {
                        DispatchStep::Respond(x) => mapped_ok(x@, resp@),
                        _ => false,
                    }
                } else {
                    responds_text(r, 500, "request pipeline interceptor transition failed"@)
                },
                HandlerOutcome::ShortCircuited(resp) => final(pipeline).state() == after_event(
                    s0,
                    NivasaRequestEvent::ErrorInterceptor,
                ) && if next_state(s0, NivasaRequestEvent::ErrorInterceptor) is Some {
                    match r {
                        DispatchStep::Respond(x) => mapped_ok(x@, resp@),
                        _ => false,
                    }
                } else {
                    responds_text(r, 500, "request pipeline interceptor transition failed"@)
                },
                HandlerOutcome::Failed { error, handler_called } => final(pipeline).state()
                    == advance_while_accepted(s0, interceptor_failure_events(handler_called))
                    && if crate::pipeline::run_events(s0, interceptor_failure_events(handler_called)) is Some {
                    r == DispatchStep::HandleException(error)
                } else {
                    responds_text(r, 500, "request pipeline interceptor transition failed"@)
                },
                HandlerOutcome::Direct(Some(resp)) => final(pipeline).state() == advance_while_accepted(
                    s0,
                    completion_events(),
                ) && if crate::pipeline::run_events(s0, completion_events()) is Some {
                    match r {
                        DispatchStep::Respond(x) => x@ == resp@,
                        _ => false,
                    }
                } else {
                    responds_text(r, 500, "request pipeline handler transition failed"@)
                },
                HandlerOutcome::Direct(None) => final(pipeline).state() == after_event(
                    s0,
                    NivasaRequestEvent::ErrorHandler,
                ) && if next_state(s0, NivasaRequestEvent::ErrorHandler) is Some {
                    responds_text(r, 500, "request handler failed"@)
                } else {
                    responds_text(r, 500, "request pipeline handler transition failed"@)
                },
            }
        }),
{
    let completion: Vec<NivasaRequestEvent> = vec![
        NivasaRequestEvent::HandlerComplete,
        NivasaRequestEvent::InterceptorsPostComplete,
        NivasaRequestEvent::ResponseSent,
    ];
    assert(completion@ =~= completion_events());
    match outcome {
        HandlerOutcome::Completed(resp) => {
            if send_all(pipeline, completion.as_slice()) {
                DispatchStep::Respond(map_interceptor_response(resp))
            } else {
                DispatchStep::Respond(internal_error("request pipeline interceptor transition failed"))
            }
        },
        HandlerOutcome::ShortCircuited(resp) => {
            let single: Vec<NivasaRequestEvent> = vec![NivasaRequestEvent::ErrorInterceptor];
            proof {
                reveal_with_fuel(advance_while_accepted, 2);
                reveal_with_fuel(crate::pipeline::run_events, 2);
                assert(single@.drop_first() =~= Seq::<NivasaRequestEvent>::empty());
            }
            if send_all(pipeline, single.as_slice()) {
                DispatchStep::Respond(map_interceptor_response(resp))
            } else {
                DispatchStep::Respond(internal_error("request pipeline interceptor transition failed"))
            }
        },
        HandlerOutcome::Failed { error, handler_called } => {
            let events: Vec<NivasaRequestEvent> = if handler_called {
                vec![NivasaRequestEvent::HandlerComplete, NivasaRequestEvent::ErrorInterceptorPost]
            } else {
                vec![NivasaRequestEvent::ErrorInterceptor]
            };
            assert(events@ =~= interceptor_failure_events(handler_called));
            if send_all(pipeline, events.as_slice()) {
                DispatchStep::HandleException(error)
            } else {
                DispatchStep::Respond(internal_error("request pipeline interceptor transition failed"))
            }
        },
        HandlerOutcome::Direct(Some(resp)) => {
            if send_all(pipeline, completion.as_slice()) {
                DispatchStep::Respond(resp)
            } else {
                DispatchStep::Respond(internal_error("request pipeline handler transition failed"))
            }
        },
        HandlerOutcome::Direct(None) => {
            match pipeline.fail_handler() {
                Ok(_) => DispatchStep::Respond(internal_error("request handler failed")),
                Err(_) => DispatchStep::Respond(internal_error("request pipeline handler transition failed")),
            }
        },
    }
}


// ---------------------------------------------------------------------------
// Exception filters
// ---------------------------------------------------------------------------

/// What dispatch knows of a registered exception filter: the exception type
/// it declares, and whether it catches everything.
#[derive(Debug, Clone, PartialEq, Eq)]
pub struct FilterBinding {
    pub exception_type: Option<String>,
    pub catch_all: bool,
}

/// How well a filter fits an exception of type `target`: `2` for a filter of
/// that type, `1` for a catch-all, `0` for none.
pub open spec fn filter_score(b: FilterBinding, target: Seq<char>) -> int {
    match b.exception_type {
        Some(t) => if t@ == target {
            2
        } else {
            0
        },
        None => if b.catch_all {
            1
        } else {
            0
        },
    }
}

/// The best filter (index and score): highest score, the later one on ties,
/// none when no filter fits.
pub open spec fn best_filter(fs: Seq<FilterBinding>, target: Seq<char>) -> Option<(int, int)>
    decreases fs.len(),
{
    if fs.len() == 0 {
        None
    } else {
        let prev = best_filter(fs.drop_last(), target);
        let i = fs.len() - 1;
        let sc = filter_score(fs.last(), target);
        if sc == 0 {
            prev
        } else {
            match prev {
                None => Some((i, sc)),
                Some(b) => if sc >= b.1 {
                    Some((i, sc))
                } else {
                    prev
                },
            }
        }
    }
}

/// The index of the filter that handles an exception of type `exception_type`.
pub fn select_exception_filter(filters: &[FilterBinding], exception_type: &str) -> (r: Option<usize>)
    ensures
        match r {
            Some(i) => best_filter(filters@, exception_type@) matches Some(b) && b.0 == i && i
                < filters@.len(),
            None => best_filter(filters@, exception_type@) is None,
        },
{
    proof {
        lemma_best_filter_is_latest_best(filters@, exception_type@);
    }
    let mut best: Option<(usize, u8)> = None;
    let mut i: usize = 0;
    while i < filters.len()
        invariant
            i <= filters@.len(),
            match best {
                Some(b) => best_filter(filters@.take(i as int), exception_type@) == Some((b.0 as int, b.1 as int)),
                None => best_filter(filters@.take(i as int), exception_type@) is None,
            },
        decreases filters@.len() - i,
    {
        assert(filters@.take(i + 1).drop_last() =~= filters@.take(i as int));
        assert(filters@.take(i + 1).last() == filters@[i as int]);
        let binding = &filters[i];
        let score: u8 = match &binding.exception_type {
            Some(t) => if crate::text::str_eq(t.as_str(), exception_type) {
                2
            } else {
                0
            },
            None => if binding.catch_all {
                1
            } else {
                0
            },
        };
        if score != 0 {
            best = match best {
                None => Some((i, score)),
                Some(b) => if score >= b.1 {
                    Some((i, score))
                } else {
                    Some(b)
                },
            };
        }
        i += 1;
    }
    assert(filters@.take(filters@.len() as int) =~= filters@);
    match best {
        Some(b) => Some(b.0),
        None => None,
    }
}

/// Where a chosen exception filter was registered.
#[derive(Debug, Clone, Copy, PartialEq, Eq, Structural)]
pub enum FilterScope {
    Handler,
    Controller,
    Global,
}

/// The filter an exception goes to: the best handler filter, else the best
/// controller filter, else the best global one.
pub open spec fn chosen_filter(
    handler: Seq<FilterBinding>,
    controller: Seq<FilterBinding>,
    global: Seq<FilterBinding>,
    target: Seq<char>,
) -> Option<(FilterScope, int)> {
    match best_filter(handler, target) {
        Some(b) => Some((FilterScope::Handler, b.0)),
        None => match best_filter(controller, target) {
            Some(b) => Some((FilterScope::Controller, b.0)),
            None => match best_filter(global, target) {
                Some(b) => Some((FilterScope::Global, b.0)),
                None => None,
            },
        },
    }
}

/// Filter scopes take precedence in order: a handler filter that fits wins
/// over any controller or global one, and a controller filter that fits
/// wins over any global one.
pub proof fn lemma_filter_scope_precedence(
    handler: Seq<FilterBinding>,
    controller: Seq<FilterBinding>,
    global: Seq<FilterBinding>,
    target: Seq<char>,
)
    ensures
        best_filter(handler, target) is Some ==> (chosen_filter(handler, controller, global, target) matches Some(
            c,
        ) && c.0 == FilterScope::Handler),
        best_filter(handler, target) is None && best_filter(controller, target) is Some ==> (chosen_filter(
            handler,
            controller,
            global,
            target,
        ) matches Some(c) && c.0 == FilterScope::Controller),
{
}

/// Whether a filter binding declares exactly the exception type `target`.
pub open spec fn declares_type(b: FilterBinding, target: Seq<char>) -> bool {
    b.exception_type matches Some(t) && t@ == target
}

/// Whether a filter binding is a catch-all that declares no type.
pub open spec fn catches_all(b: FilterBinding) -> bool {
    b.exception_type is None && b.catch_all
}

/// Only a filter that declares exactly the exception's type, or a catch-all
/// filter that declares no type, can be chosen for an exception: a filter
/// declared for another type never fits. A filter of the exception's own
/// type is preferred to any catch-all, and when no filter fits, none is
/// chosen.
pub proof fn lemma_only_fitting_filters_are_chosen(fs: Seq<FilterBinding>, target: Seq<char>)
    ensures
        best_filter(fs, target) matches Some(b) ==> {
            &&& 0 <= b.0 < fs.len()
            &&& declares_type(fs[b.0], target) || catches_all(fs[b.0])
        },
        (exists|j: int| 0 <= j < fs.len() && #[trigger] declares_type(fs[j], target)) ==> (best_filter(
            fs,
            target,
        ) matches Some(b) && declares_type(fs[b.0], target)),
        (forall|j: int| 0 <= j < fs.len() ==> !#[trigger] declares_type(fs[j], target) && !catches_all(fs[j]))
            ==> best_filter(fs, target) is None,
{
    lemma_best_filter_is_latest_best(fs, target);
    if exists|j: int| 0 <= j < fs.len() && #[trigger] declares_type(fs[j], target) {
        let j = choose|j: int| 0 <= j < fs.len() && #[trigger] declares_type(fs[j], target);
        assert(filter_score(fs[j], target) == 2);
    }
    if forall|j: int| 0 <= j < fs.len() ==> !#[trigger] declares_type(fs[j], target) && !catches_all(fs[j]) {
        match best_filter(fs, target) {
            Some(b) => {
                assert(!declares_type(fs[b.0], target) && !catches_all(fs[b.0]));
                assert(filter_score(fs[b.0], target) > 0);
            },
            None => {},
        }
    }
}

/// The filter chosen for an exception, at whichever scope, declares exactly
/// the exception's type or is a catch-all without a type.
pub proof fn lemma_chosen_filter_fits(
    handler: Seq<FilterBinding>,
    controller: Seq<FilterBinding>,
    global: Seq<FilterBinding>,
    target: Seq<char>,
)
    ensures
        chosen_filter(handler, controller, global, target) matches Some(c) ==> {
            let fs = match c.0 {
                FilterScope::Handler => handler,
                FilterScope::Controller => controller,
                FilterScope::Global => global,
            };
            &&& 0 <= c.1 < fs.len()
            &&& declares_type(fs[c.1], target) || catches_all(fs[c.1])
        },
{
    lemma_only_fitting_filters_are_chosen(handler, target);
    lemma_only_fitting_filters_are_chosen(controller, target);
    lemma_only_fitting_filters_are_chosen(global, target);
}

/// The filter an exception of type `exception_type` goes to; `None` means
/// it is answered with the standard error body.
pub fn choose_exception_filter(
    handler: &[FilterBinding],
    controller: &[FilterBinding],
    global: &[FilterBinding],
    exception_type: &str,
) -> (r: Option<(FilterScope, usize)>)
    ensures
        match r {
            Some(c) => chosen_filter(handler@, controller@, global@, exception_type@) == Some(
                (c.0, c.1 as int),
            ),
            None => chosen_filter(handler@, controller@, global@, exception_type@) is None,
        },
{
    match select_exception_filter(handler, exception_type) {
        Some(i) => Some((FilterScope::Handler, i)),
        None => match select_exception_filter(controller, exception_type) {
            Some(i) => Some((FilterScope::Controller, i)),
            None => match select_exception_filter(global, exception_type) {
                Some(i) => Some((FilterScope::Global, i)),
                None => None,
            },
        },
    }
}

/// The answer when a chosen exception filter fails: the standard `500`
/// error body.
pub fn unhandled_exception_response() -> (r: NivasaResponse)
    ensures
        exception_response_ok(r@, 500, "request handler failed"@),
{
    let e = HttpException::internal_server_error("request handler failed");
    exception_response(&e)
}

/// The filter an exception goes to within one scope fits it best: no
/// filter fits better, every equally fitting one was registered earlier,
/// and a filter declaring the exception's type beats a catch-all. When no
/// filter is chosen, none fits.
pub proof fn lemma_best_filter_is_latest_best(fs: Seq<FilterBinding>, target: Seq<char>)
    ensures
        best_filter(fs, target) matches Some(b) ==> {
            &&& 0 <= b.0 < fs.len()
            &&& filter_score(fs[b.0], target) == b.1
            &&& b.1 > 0
            &&& forall|j: int|
                0 <= j < fs.len() ==> #[trigger] filter_score(fs[j], target) < b.1 || (filter_score(
                    fs[j],
                    target,
                ) == b.1 && j <= b.0)
        },
        best_filter(fs, target) is None ==> forall|j: int| 0 <= j < fs.len() ==> #[trigger] filter_score(fs[j], target) == 0,
    decreases fs.len(),
{
    if fs.len() > 0 {
        let init = fs.drop_last();
        let last = fs.len() - 1;
        lemma_best_filter_is_latest_best(init, target);
        assert(fs.last() == fs[last]);
        let sc = filter_score(fs[last], target);
        assert(sc >= 0);
        match best_filter(fs, target) {
            Some(b) => {
                assert forall|j: int| 0 <= j < fs.len() implies #[trigger] filter_score(fs[j], target) < b.1 || (
                filter_score(fs[j], target) == b.1 && j <= b.0) by {
                    if j < last {
                        assert(init[j] == fs[j]);
                        assert(filter_score(init[j], target) == filter_score(fs[j], target));
                    }
                }
                if b.0 < last {
                    assert(init[b.0] == fs[b.0]);
                }
            },
            None => {
                assert forall|j: int| 0 <= j < fs.len() implies #[trigger] filter_score(fs[j], target) == 0 by {
                    if j < last {
                        assert(init[j] == fs[j]);
                        assert(filter_score(init[j], target) == filter_score(fs[j], target));
                    }
                }
            },
        }
    }
}


// ---------------------------------------------------------------------------
// Request bodies for the global pipes
// ---------------------------------------------------------------------------

/// Whether a content type names JSON: after trimming and lower-casing, it
/// starts with `application/json`, ends with `+json`, or contains `/json`.
pub open spec fn json_content_type(text: Seq<char>) -> bool {
    let v = crate::text::lower_all(trim(text));
    crate::text::starts_with(v, "application/json"@) || crate::text::ends_with(v, "+json"@)
        || crate::text::find_first(v, "/json"@) is Some
}

/// Whether the request's `content-type` names JSON.
pub open spec fn body_looks_json(request: RequestView) -> bool {
    match lookup_header(request.headers, "content-type"@) {
        Some(v) => match value_text(v) {
            Some(t) => json_content_type(t),
            None => false,
        },
        None => false,
    }
}

pub fn request_body_looks_json(request: &NivasaRequest) -> (r: bool)
    ensures
        r == body_looks_json(request@),
{
    proof {
        reveal_strlit("content-type");
        reveal_strlit("application/json");
        reveal_strlit("+json");
        reveal_strlit("/json");
    }
    let headers = request.headers();
    assert(headers.lookup("content-type"@) == lookup_header(request@.headers, "content-type"@));
    let text = match headers.text_of("content-type") {
        Some(t) => t,
        None => {
            return false;
        },
    };
    let chars = crate::text::chars_of(text.as_str());
    let trimmed = trim_chars(chars.as_slice());
    let v = crate::text::chars_lower(trimmed.as_slice());
    let app_json = crate::text::chars_of("application/json");
    let plus_json = crate::text::chars_of("+json");
    let slash_json = crate::text::chars_of("/json");
    if crate::text::chars_starts_with(v.as_slice(), app_json.as_slice()) {
        return true;
    }
    let n = v.len();
    if n >= 5 {
        let tail = crate::text::copy_range(v.as_slice(), n - 5, n);
        assert(tail@ =~= v@.skip(n - 5));
        if crate::text::chars_eq(tail.as_slice(), plus_json.as_slice()) {
            return true;
        }
    }
    crate::text::find_chars(v.as_slice(), slash_json.as_slice()).is_some()
}

/// The message `serde_json` gives for a text that is not a JSON document,
/// or `None` when it is one.
pub uninterp spec fn json_error_of(text: Seq<char>) -> Option<Seq<char>>;

/// `serde_json::from_str::<serde_json::Value>`, kept only as whether it
/// parses and the error's message. Which texts parse is named by `json_error_of`.
#[verifier::external_body]
pub(crate) fn json_syntax_error(text: &str) -> (r: Option<String>)
    ensures
        match r {
            Some(m) => json_error_of(text@) == Some(m@),
            None => json_error_of(text@) is None,
        },
{
    serde_json::from_str::<serde_json::Value>(text).err().map(|e| e.to_string())
}

/// The message of `String::from_utf8`'s error for bytes that are not UTF-8.
pub uninterp spec fn utf8_error_text(bytes: Seq<u8>) -> Seq<char>;

/// `String::from_utf8`: the text of valid UTF-8, else the error's message
/// (named by `utf8_error_text`).
#[verifier::external_body]
pub(crate) fn utf8_string(bytes: &[u8]) -> (r: Result<String, String>)
    ensures
        match r {
            Ok(s) => valid_utf8(bytes@) && s@ == decode_utf8(bytes@),
            Err(m) => !valid_utf8(bytes@) && m@ == utf8_error_text(bytes@),
        },
{
    String::from_utf8(bytes.to_vec()).map_err(|e| e.to_string())
}

/// The value the global pipes start from: nothing, a JSON string, or a JSON
/// document (its text).
#[derive(Debug, Clone, PartialEq, Eq)]
pub enum PipeInput {
    Null,
    Text(String),
    Document(String),
}

/// The pipe input of a text body: a document when the request says JSON
/// (and it parses), a string otherwise.
pub open spec fn text_pipe_input(looks_json: bool, t: Seq<char>) -> Result<Seq<char>, Seq<char>> {
    if looks_json {
        match json_error_of(t) {
            None => Ok(t),
            Some(m) => Err("global pipe could not parse request body as JSON: "@ + m),
        }
    } else {
        Ok(t)
    }
}

/// The pipe input for a request's body, or the `400` message it is refused with.
pub open spec fn pipe_input_ok(r: Result<PipeInput, HttpException>, request: RequestView) -> bool {
    let looks = body_looks_json(request);
    let text_case = |t: Seq<char>| match text_pipe_input(looks, t) {
        Ok(d) => if looks {
            r matches Ok(PipeInput::Document(x)) && x@ == d
        } else {
            r matches Ok(PipeInput::Text(x)) && x@ == d
        },
        Err(m) => r matches Err(e) && e.status_code == 400 && e.message@ == m,
    };
    match request.body {
        BodyView::Empty => r == Ok::<PipeInput, HttpException>(PipeInput::Null),
        BodyView::Json(t) => r matches Ok(PipeInput::Document(x)) && x@ == t,
        BodyView::Text(t) => text_case(t),
        BodyView::Html(t) => text_case(t),
        BodyView::Bytes(b) => if valid_utf8(b) {
            text_case(decode_utf8(b))
        } else {
            r matches Err(e) && e.status_code == 400 && e.message@
                == "global pipe requires a UTF-8 request body: "@ + utf8_error_text(b)
        },
    }
}

fn text_to_pipe_input(looks_json: bool, text: String) -> (r: Result<PipeInput, HttpException>)
    ensures
        match text_pipe_input(looks_json, text@) {
            Ok(d) => if looks_json {
                r matches Ok(PipeInput::Document(x)) && x@ == d
            } else {
                r matches Ok(PipeInput::Text(x)) && x@ == d
            },
            Err(m) => r matches Err(e) && e.status_code == 400 && e.message@ == m,
        },
{
    if looks_json {
        match json_syntax_error(text.as_str()) {
            None => Ok(PipeInput::Document(text)),
            Some(m) => {
                let mut msg = String::from_str("global pipe could not parse request body as JSON: ");
                msg.append(m.as_str());
                Err(HttpException::bad_request(msg.as_str()))
            },
        }
    } else {
        Ok(PipeInput::Text(text))
    }
}

/// The value the global pipes start from for a request's body.
pub fn request_body_to_pipe_value(request: &NivasaRequest) -> (r: Result<PipeInput, HttpException>)
    ensures
        pipe_input_ok(r, request@),
{
    let looks = request_body_looks_json(request);
    match request.body() {
        Body::Empty => Ok(PipeInput::Null),
        Body::Json(t) => Ok(PipeInput::Document(t.clone())),
        Body::Text(t) => text_to_pipe_input(looks, t.clone()),
        Body::Html(t) => text_to_pipe_input(looks, t.clone()),
        Body::Bytes(b) => match utf8_string(b.as_slice()) {
            Ok(text) => text_to_pipe_input(looks, text),
            Err(m) => {
                let mut msg = String::from_str("global pipe requires a UTF-8 request body: ");
                msg.append(m.as_str());
                Err(HttpException::bad_request(msg.as_str()))
            },
        },
    }
}


/// The body a pipe's result becomes: no body for null, a text body for a
/// string, a JSON body for any other document.
pub fn pipe_value_to_body(value: PipeInput) -> (r: Body)
    ensures
        r@ == match value {
            PipeInput::Null => BodyView::Empty,
            PipeInput::Text(t) => BodyView::Text(t@),
            PipeInput::Document(d) => BodyView::Json(d@),
        },
{
    match value {
        PipeInput::Null => Body::empty(),
        PipeInput::Text(t) => Body::text(t.as_str()),
        PipeInput::Document(d) => Body::json(d.as_str()),
    }
}

// ---------------------------------------------------------------------------
// Route-scoped middleware
// ---------------------------------------------------------------------------

/// What route-middleware selection knows of one binding: whether its route
/// pattern matches the request path, and whether each of its excluded paths
/// does.
#[derive(Debug, Clone, PartialEq, Eq)]
pub struct RouteMiddlewareCandidate {
    pub matches_path: bool,
    pub excluded_matches: Vec<bool>,
}

/// A binding applies when its pattern matches and no exclusion does.
pub open spec fn middleware_applies(c: RouteMiddlewareCandidate) -> bool {
    c.matches_path && !c.excluded_matches@.contains(true)
}

/// The indices of the first `n` bindings that apply, in order.
pub open spec fn applying_middlewares(cs: Seq<RouteMiddlewareCandidate>, n: int) -> Seq<usize>
    decreases n,
{
    if n <= 0 {
        Seq::empty()
    } else if middleware_applies(cs[n - 1]) {
        applying_middlewares(cs, n - 1).push((n - 1) as usize)
    } else {
        applying_middlewares(cs, n - 1)
    }
}

fn any_excluded(flags: &Vec<bool>) -> (r: bool)
    ensures
        r == flags@.contains(true),
{
    let mut i: usize = 0;
    while i < flags.len()
        invariant
            i <= flags@.len(),
            forall|j: int| 0 <= j < i ==> !flags@[j],
        decreases flags@.len() - i,
    {
        if flags[i] {
            assert(flags@[i as int] == true);
            return true;
        }
        i += 1;
    }
    false
}

/// The route-scoped middlewares that run for a request, in binding order.
pub fn matching_route_middlewares(bindings: &[RouteMiddlewareCandidate]) -> (r: Vec<usize>)
    ensures
        r@ == applying_middlewares(bindings@, bindings@.len() as int),
{
    let mut out: Vec<usize> = Vec::new();
    let mut i: usize = 0;
    while i < bindings.len()
        invariant
            i <= bindings@.len(),
            out@ == applying_middlewares(bindings@, i as int),
        decreases bindings@.len() - i,
    {
        let b = &bindings[i];
        if b.matches_path && !any_excluded(&b.excluded_matches) {
            out.push(i);
        }
        i += 1;
    }
    out
}

// ---------------------------------------------------------------------------
// Versioned routes and request ids
// ---------------------------------------------------------------------------

/// What route selection knows of a registered route: its API version, and
/// whether its pattern matches the request path.
#[derive(Debug, Clone, PartialEq, Eq)]
pub struct RouteCandidate {
    pub version: Option<String>,
    pub matches_path: bool,
}

pub open spec fn opt_seq(o: Option<String>) -> Option<Seq<char>> {
    match o {
        Some(s) => Some(s@),
        None => None,
    }
}

/// Whether some route of exactly `version` matches the path.
pub open spec fn versioned_match_exists(routes: Seq<RouteCandidate>, version: Seq<char>) -> bool {
    exists|j: int| 0 <= j < routes.len() && (#[trigger] routes[j]).matches_path && opt_seq(routes[j].version) == Some(version)
}

/// Whether a route takes part in dispatch for a request asking for
/// `version`: its pattern must match, and it must be of that version when
/// some route of that version matches, else unversioned.
pub open spec fn route_selected(routes: Seq<RouteCandidate>, version: Option<Seq<char>>, i: int) -> bool {
    let c = routes[i];
    c.matches_path && match version {
        Some(v) => if versioned_match_exists(routes, v) {
            opt_seq(c.version) == Some(v)
        } else {
            c.version is None
        },
        None => c.version is None,
    }
}

/// The indices of the routes that take part in dispatch, in order.
pub open spec fn selected_routes(routes: Seq<RouteCandidate>, version: Option<Seq<char>>, n: int) -> Seq<usize>
    decreases n,
{
    if n <= 0 {
        Seq::empty()
    } else if route_selected(routes, version, n - 1) {
        selected_routes(routes, version, n - 1).push((n - 1) as usize)
    } else {
        selected_routes(routes, version, n - 1)
    }
}

/// The routes taking part in dispatch are exactly those that match the path
/// and have the requested version when some matching route has it, or no
/// version otherwise; they are listed in registration order.
pub proof fn lemma_selected_routes_exact(routes: Seq<RouteCandidate>, version: Option<Seq<char>>, n: int)
    requires
        0 <= n <= routes.len(),
        routes.len() <= usize::MAX,
    ensures
        forall|i: int|
            0 <= i < n ==> (selected_routes(routes, version, n).contains(i as usize) <==> route_selected(
                routes,
                version,
                i,
            )),
        forall|k: int, l: int|
            0 <= k < l < selected_routes(routes, version, n).len() ==> #[trigger] selected_routes(routes, version, n)[k]
                < #[trigger] selected_routes(routes, version, n)[l],
        forall|k: int|
            0 <= k < selected_routes(routes, version, n).len() ==> #[trigger] selected_routes(routes, version, n)[k] < n,
    decreases n,
{
    if n > 0 {
        lemma_selected_routes_exact(routes, version, n - 1);
        let prev = selected_routes(routes, version, n - 1);
        if route_selected(routes, version, n - 1) {
            let cur = prev.push((n - 1) as usize);
            assert(selected_routes(routes, version, n) == cur);
            assert forall|i: int| 0 <= i < n implies (cur.contains(i as usize) <==> route_selected(routes, version, i)) by {
                if cur.contains(i as usize) && i < n - 1 {
                    let k = choose|k: int| 0 <= k < cur.len() && cur[k] == i as usize;
                    if k < prev.len() {
                        assert(prev[k] == cur[k]);
                        assert(prev.contains(i as usize));
                    }
                }
                if i < n - 1 && prev.contains(i as usize) {
                    let k = choose|k: int| 0 <= k < prev.len() && prev[k] == i as usize;
                    assert(cur[k] == prev[k]);
                }
                if i == n - 1 {
                    assert(cur[prev.len() as int] == (n - 1) as usize);
                }
            }
        } else {
            assert forall|i: int| 0 <= i < n implies (prev.contains(i as usize) <==> route_selected(routes, version, i)) by {
                if i == n - 1 && prev.contains(i as usize) {
                    let k = choose|k: int| 0 <= k < prev.len() && prev[k] == i as usize;
                    assert(prev[k] < n - 1);
                }
            }
        }
    }
}

/// The routes that take part in dispatch for a request asking for `version`.
pub fn versioned_routes_for_request(version: Option<&str>, routes: &[RouteCandidate]) -> (r: Vec<usize>)
    ensures
        r@ == selected_routes(routes@, opt_text(version), routes@.len() as int),
{
    let mut saw = false;
    match version {
        Some(v) => {
            let mut j: usize = 0;
            while j < routes.len()
                invariant
                    j <= routes@.len(),
                    saw == exists|k: int| 0 <= k < j && (#[trigger] routes@[k]).matches_path && opt_seq(routes@[k].version) == Some(v@),
                decreases routes@.len() - j,
            {
                let same = match &routes[j].version {
                    Some(rv) => crate::text::str_eq(rv.as_str(), v),
                    None => false,
                };
                if routes[j].matches_path && same {
                    saw = true;
                }
                j += 1;
            }
        },
        None => {},
    }
    let mut out: Vec<usize> = Vec::new();
    let mut i: usize = 0;
    while i < routes.len()
        invariant
            i <= routes@.len(),
            version matches Some(v) ==> saw == versioned_match_exists(routes@, v@),
            out@ == selected_routes(routes@, opt_text(version), i as int),
        decreases routes@.len() - i,
    {
        let c = &routes[i];
        let takes_part = if !c.matches_path {
            false
        } else {
            match version {
                Some(v) => if saw {
                    match &c.version {
                        Some(rv) => crate::text::str_eq(rv.as_str(), v),
                        None => false,
                    }
                } else {
                    c.version.is_none()
                },
                None => c.version.is_none(),
            }
        };
        if takes_part {
            out.push(i);
        }
        i += 1;
    }
    out
}

/// The text after the last `::` of a path (the whole text when it has none).
pub open spec fn last_segment(path: Seq<char>) -> Seq<char> {
    crate::text::split(path, "::"@).last()
}

/// The last `::`-separated segment of a path, such as a type's own name.
pub fn last_path_segment(path: &str) -> (r: String)
    ensures
        r@ == last_segment(path@),
{
    proof {
        reveal_strlit("::");
    }
    let chars = crate::text::chars_of(path);
    let sep = crate::text::chars_of("::");
    let parts = crate::text::split_chars(chars.as_slice(), sep.as_slice());
    proof {
        crate::text::lemma_split_nonempty(chars@, sep@);
    }
    let last = &parts[parts.len() - 1];
    assert(crate::text::views(parts@)[parts@.len() - 1] == last@);
    crate::text::string_of(last.as_slice())
}

/// A lower-case hexadecimal digit: `0`-`9` or `a`-`f`.
pub open spec fn is_lower_hex(c: char) -> bool {
    (48 <= c as int && c as int <= 57) || (97 <= c as int && c as int <= 102)
}

/// The text of a random (version 4, RFC 4122 variant) UUID in lower-case
/// hyphenated form: 36 characters, hyphens at 8, 13, 18 and 23, hex digits
/// elsewhere, the version digit `4` at 14 and a variant digit `8`, `9`, `a`
/// or `b` at 19.
pub open spec fn is_uuid_v4_text(s: Seq<char>) -> bool {
    &&& s.len() == 36
    &&& forall|i: int|
        0 <= i < 36 ==> if i == 8 || i == 13 || i == 18 || i == 23 {
            #[trigger] s[i] == '-'
        } else {
            is_lower_hex(s[i])
        }
    &&& s[14] == '4'
    &&& (s[19] == '8' || s[19] == '9' || s[19] == 'a' || s[19] == 'b')
}

/// `uuid::Uuid::new_v4().to_string()`: a fresh id whose 122 other bits are
/// random, written in the lower-case hyphenated form; the contract states
/// that form and leaves the random digits open.
#[verifier::external_body]
fn new_request_id() -> (r: String)
    ensures
        is_uuid_v4_text(r@),
{
    uuid::Uuid::new_v4().to_string()
}

/// The request id of a request: its `x-request-id` header (trimmed,
/// non-empty), else a fresh random one.
pub fn resolve_request_id(request: &NivasaRequest) -> (r: String)
    ensures
        match request_header_text(request@, "x-request-id"@) {
            Some(t) => r@ == t,
            None => is_uuid_v4_text(r@),
        },
{
    proof {
        reveal_strlit("x-request-id");
    }
    match request_header_value(request, "x-request-id") {
        Some(id) => id,
        None => new_request_id(),
    }
}

} // verus!
