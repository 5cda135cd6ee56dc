use nivasa_http::dispatch::{
    after_global_middleware, after_guards, after_handler, after_middleware_sequence, after_pipes,
    after_route_lookup, unhandled_exception_response, DispatchStep, HandlerOutcome, MiddlewareOutcome,
};
use nivasa_http::pipeline::{GuardVerdict, NivasaRequestState, RouteDispatchOutcome};
use nivasa_http::{Body, HttpException, NivasaRequest, NivasaResponse, RequestPipeline, RoutePathCaptures};

fn started() -> RequestPipeline {
    match after_global_middleware(MiddlewareOutcome::Forwarded(NivasaRequest::new("GET", "/users/42", Body::empty())))
    {
        Ok(p) => p,
        Err(_) => panic!("forwarded requests start the lifecycle"),
    }
}

fn at_handler() -> RequestPipeline {
    let mut p = started();
    assert!(matches!(after_route_lookup(&mut p, RouteDispatchOutcome::Matched(None)), DispatchStep::Continue));
    assert!(matches!(after_guards(&mut p, &[GuardVerdict::Allow]), DispatchStep::Continue));
    assert!(matches!(after_pipes(&mut p, Ok(Body::text("piped"))), DispatchStep::Continue));
    assert_eq!(p.current_state(), NivasaRequestState::HandlerExecution);
    p
}

fn response_of(step: DispatchStep) -> NivasaResponse {
    match step {
        DispatchStep::Respond(r) => r,
        _ => panic!("expected a response"),
    }
}

#[test]
fn forwarded_requests_reach_route_matching() {
    let p = started();
    assert_eq!(p.current_state(), NivasaRequestState::RouteMatching);
    assert_eq!(p.request().path(), "/users/42");
}

#[test]
fn short_circuited_global_middleware_answers_directly() {
    let answer = NivasaResponse::text("stop");
    let outcome = after_global_middleware(MiddlewareOutcome::ShortCircuited {
        request: NivasaRequest::new("GET", "/", Body::empty()),
        response: answer,
    });
    match outcome {
        Err(r) => assert_eq!(r.body().as_bytes(), b"stop"),
        Ok(_) => panic!("the middleware answered"),
    }
}

#[test]
fn unknown_routes_get_404_and_wrong_methods_405() {
    let mut p = started();
    let r = response_of(after_route_lookup(&mut p, RouteDispatchOutcome::NotFound));
    assert_eq!(r.status(), 404);
    assert_eq!(r.body().as_bytes(), b"not found");
    assert_eq!(p.current_state(), NivasaRequestState::ErrorHandling);

    let mut p = started();
    let r = response_of(after_route_lookup(
        &mut p,
        RouteDispatchOutcome::MethodNotAllowed { allowed_methods: vec!["GET".to_string(), "POST".to_string()] },
    ));
    assert_eq!(r.status(), 405);
    assert_eq!(r.body().as_bytes(), b"method not allowed");
    assert_eq!(r.headers().get_str("allow").unwrap(), "GET, POST");
}

#[test]
fn route_lookup_out_of_order_is_a_500() {
    let mut p = RequestPipeline::new(NivasaRequest::new("GET", "/", Body::empty()));
    let r = response_of(after_route_lookup(&mut p, RouteDispatchOutcome::NotFound));
    assert_eq!(r.status(), 500);
    assert_eq!(r.body().as_bytes(), b"request pipeline route transition failed");
}

#[test]
fn matched_routes_attach_captures() {
    let mut p = started();
    let mut captures = RoutePathCaptures::new();
    captures.push("id", "42");
    assert!(matches!(
        after_route_lookup(&mut p, RouteDispatchOutcome::Matched(Some(captures))),
        DispatchStep::Continue
    ));
    assert_eq!(p.request().path_param("id"), Some("42"));
}

#[test]
fn route_middleware_can_answer_or_forward() {
    let mut p = started();
    let forwarded = NivasaRequest::new("GET", "/rewritten", Body::empty());
    assert!(matches!(
        after_middleware_sequence(&mut p, MiddlewareOutcome::Forwarded(forwarded)),
        DispatchStep::Continue
    ));
    assert_eq!(p.request().path(), "/rewritten");

    let step = after_middleware_sequence(
        &mut p,
        MiddlewareOutcome::ShortCircuited {
            request: NivasaRequest::new("GET", "/", Body::empty()),
            response: NivasaResponse::text("cached"),
        },
    );
    assert_eq!(response_of(step).body().as_bytes(), b"cached");
}

#[test]
fn denied_requests_get_the_forbidden_error_body() {
    let mut p = started();
    let _ = after_route_lookup(&mut p, RouteDispatchOutcome::Matched(None));
    let r = response_of(after_guards(&mut p, &[GuardVerdict::Allow, GuardVerdict::Deny]));
    assert_eq!(r.status(), 403);
    let json: serde_json::Value = serde_json::from_slice(&r.body().as_bytes()).unwrap();
    assert_eq!(json["message"], "request denied by guard");
    assert_eq!(json["statusCode"], 403);
    assert_eq!(p.current_state(), NivasaRequestState::ErrorHandling);
}

#[test]
fn guard_errors_go_to_the_filters() {
    let mut p = started();
    let _ = after_route_lookup(&mut p, RouteDispatchOutcome::Matched(None));
    match after_guards(&mut p, &[GuardVerdict::Error(HttpException::new(401, "who?"))]) {
        DispatchStep::HandleException(e) => {
            assert_eq!(e.status_code, 401);
            assert_eq!(e.message, "who?");
        }
        _ => panic!("expected the exception"),
    }
}

#[test]
fn pipe_failures_go_to_the_filters_and_bodies_are_replaced() {
    let p = at_handler();
    assert!(matches!(p.request().body(), Body::Text(t) if t == "piped"));

    let mut p = started();
    let _ = after_route_lookup(&mut p, RouteDispatchOutcome::Matched(None));
    let _ = after_guards(&mut p, &[]);
    match after_pipes(&mut p, Err(HttpException::bad_request("bad"))) {
        DispatchStep::HandleException(e) => assert_eq!(e.status_code, 400),
        _ => panic!("expected the exception"),
    }
    assert_eq!(p.current_state(), NivasaRequestState::ErrorHandling);
}

#[test]
fn a_direct_handler_response_finishes_the_lifecycle() {
    let mut p = at_handler();
    let r = response_of(after_handler(&mut p, HandlerOutcome::Direct(Some(NivasaResponse::text("done")))));
    assert_eq!(r.body().as_bytes(), b"done");
    assert_eq!(p.current_state(), NivasaRequestState::Done);
}

#[test]
fn a_failed_handler_is_a_500() {
    let mut p = at_handler();
    let r = response_of(after_handler(&mut p, HandlerOutcome::Direct(None)));
    assert_eq!(r.status(), 500);
    assert_eq!(r.body().as_bytes(), b"request handler failed");
    assert_eq!(p.current_state(), NivasaRequestState::ErrorHandling);
}

#[test]
fn intercepted_responses_are_mapped() {
    let mut p = at_handler();
    let r = response_of(after_handler(&mut p, HandlerOutcome::Completed(NivasaResponse::text("x"))));
    assert_eq!(r.body().as_bytes(), b"{\"data\":\"x\"}");
    assert_eq!(p.current_state(), NivasaRequestState::Done);

    let mut p = at_handler();
    let r = response_of(after_handler(&mut p, HandlerOutcome::ShortCircuited(NivasaResponse::text("y"))));
    assert_eq!(r.body().as_bytes(), b"{\"data\":\"y\"}");
    assert_eq!(p.current_state(), NivasaRequestState::ErrorHandling);
}

#[test]
fn interceptor_failures_go_to_the_filters() {
    let mut p = at_handler();
    match after_handler(
        &mut p,
        HandlerOutcome::Failed { error: HttpException::internal_server_error("late"), handler_called: true },
    ) {
        DispatchStep::HandleException(e) => assert_eq!(e.message, "late"),
        _ => panic!("expected the exception"),
    }
    assert_eq!(p.current_state(), NivasaRequestState::ErrorHandling);
}

#[test]
fn failing_filters_fall_back_to_a_500_body() {
    let r = unhandled_exception_response();
    assert_eq!(r.status(), 500);
    let json: serde_json::Value = serde_json::from_slice(&r.body().as_bytes()).unwrap();
    assert_eq!(json["message"], "request handler failed");
    assert_eq!(json["error"], "Internal Server Error");
}
