use nivasa_http::pipeline::{GuardVerdict, NivasaRequestEvent, NivasaRequestState, RouteDispatchOutcome};
use nivasa_http::{
    Body, ExecutionContext, Guard, GuardExecutionOutcome, HttpException, NivasaRequest, RequestPipeline,
    RoutePathCaptures,
};
use std::sync::{Arc, Mutex};

fn ready_pipeline() -> RequestPipeline {
    let request = NivasaRequest::new("GET", "/users/42", Body::empty());
    let mut pipeline = RequestPipeline::new(request);

    assert_eq!(pipeline.snapshot().current_state, NivasaRequestState::Received);
    pipeline.parse_request().unwrap();
    assert_eq!(pipeline.snapshot().current_state, NivasaRequestState::MiddlewareChain);
    pipeline.complete_middleware().unwrap();
    assert_eq!(pipeline.snapshot().current_state, NivasaRequestState::RouteMatching);

    pipeline
}

fn id_captures() -> RoutePathCaptures {
    let mut captures = RoutePathCaptures::new();
    captures.push("id", "42");
    captures
}

fn matched_pipeline() -> RequestPipeline {
    let mut pipeline = ready_pipeline();
    pipeline
        .match_route(RouteDispatchOutcome::Matched(Some(id_captures())))
        .unwrap();
    assert_eq!(pipeline.snapshot().current_state, NivasaRequestState::GuardChain);
    pipeline
}

fn assert_latest_transition(
    pipeline: &RequestPipeline,
    from: NivasaRequestState,
    event: NivasaRequestEvent,
    to: Option<NivasaRequestState>,
) {
    let snapshot = pipeline.snapshot();
    let transition = snapshot
        .recent_transitions
        .last()
        .expect("pipeline must record the latest transition");

    assert_eq!(transition.from, from);
    assert_eq!(transition.event, event);
    assert_eq!(transition.to, to);
}

#[test]
fn request_pipeline_advances_through_initial_scxml_stages() {
    let pipeline = ready_pipeline();

    assert_eq!(pipeline.request().path(), "/users/42");
    assert_eq!(format!("{:?}", pipeline.current_state()), "RouteMatching");
    assert_eq!(pipeline.snapshot().current_state, NivasaRequestState::RouteMatching);
}

#[test]
fn request_pipeline_drives_route_matching_outcomes() {
    let mut matched_pipeline = ready_pipeline();
    matched_pipeline
        .match_route(RouteDispatchOutcome::Matched(Some(RoutePathCaptures::new())))
        .unwrap();
    assert_eq!(matched_pipeline.snapshot().current_state, NivasaRequestState::GuardChain);
    assert!(matched_pipeline.request().path_params().is_some());
    assert!(matched_pipeline.request().path_params().unwrap().is_empty());

    let mut not_found_pipeline = ready_pipeline();
    not_found_pipeline.match_route(RouteDispatchOutcome::NotFound).unwrap();
    assert_eq!(not_found_pipeline.snapshot().current_state, NivasaRequestState::ErrorHandling);
    assert!(not_found_pipeline.request().path_params().is_none());
    assert_latest_transition(
        &not_found_pipeline,
        NivasaRequestState::RouteMatching,
        NivasaRequestEvent::RouteNotFound,
        Some(NivasaRequestState::ErrorHandling),
    );

    let mut not_allowed_pipeline = ready_pipeline();
    not_allowed_pipeline
        .match_route(RouteDispatchOutcome::MethodNotAllowed { allowed_methods: vec!["POST".to_string()] })
        .unwrap();
    assert_eq!(not_allowed_pipeline.snapshot().current_state, NivasaRequestState::ErrorHandling);
    assert!(not_allowed_pipeline.request().path_params().is_none());
    assert_latest_transition(
        &not_allowed_pipeline,
        NivasaRequestState::RouteMatching,
        NivasaRequestEvent::RouteMethodNotAllowed,
        Some(NivasaRequestState::ErrorHandling),
    );
}

#[test]
fn request_pipeline_attaches_route_captures_for_parameterized_routes() {
    let request = NivasaRequest::new("GET", "/users/42", Body::empty());
    let mut pipeline = RequestPipeline::new(request);

    pipeline.parse_request().unwrap();
    pipeline.complete_middleware().unwrap();
    pipeline
        .match_route(RouteDispatchOutcome::Matched(Some(id_captures())))
        .unwrap();
    assert_eq!(pipeline.snapshot().current_state, NivasaRequestState::GuardChain);
    assert_eq!(pipeline.request().path_param("id"), Some("42"));
    assert_eq!(pipeline.request().path_params().unwrap().get("id"), Some("42"));
}

#[test]
fn request_pipeline_routes_middleware_errors_to_error_handling() {
    let request = NivasaRequest::new("GET", "/users/42", Body::empty());
    let mut pipeline = RequestPipeline::new(request);

    pipeline.parse_request().unwrap();
    pipeline.fail_middleware().unwrap();

    assert_eq!(pipeline.snapshot().current_state, NivasaRequestState::ErrorHandling);
    assert!(pipeline.request().path_params().is_none());
    assert_latest_transition(
        &pipeline,
        NivasaRequestState::MiddlewareChain,
        NivasaRequestEvent::ErrorMiddleware,
        Some(NivasaRequestState::ErrorHandling),
    );
}

#[test]
fn request_pipeline_routes_parse_errors_to_error_handling() {
    let request = NivasaRequest::new("GET", "/users/42", Body::empty());
    let mut pipeline = RequestPipeline::new(request);

    pipeline.fail_parse().unwrap();

    assert_eq!(pipeline.snapshot().current_state, NivasaRequestState::ErrorHandling);
    assert!(pipeline.request().path_params().is_none());
    assert_latest_transition(
        &pipeline,
        NivasaRequestState::Received,
        NivasaRequestEvent::ErrorParse,
        Some(NivasaRequestState::ErrorHandling),
    );
}

#[test]
fn request_pipeline_can_complete_the_scxml_happy_path() {
    let mut pipeline = matched_pipeline();

    pipeline.pass_guards().unwrap();
    assert_eq!(pipeline.snapshot().current_state, NivasaRequestState::InterceptorPre);
    pipeline.complete_interceptors_pre().unwrap();
    assert_eq!(pipeline.snapshot().current_state, NivasaRequestState::PipeTransform);
    pipeline.complete_pipes().unwrap();
    assert_eq!(pipeline.snapshot().current_state, NivasaRequestState::HandlerExecution);
    pipeline.complete_handler().unwrap();
    assert_eq!(pipeline.snapshot().current_state, NivasaRequestState::InterceptorPost);
    pipeline.complete_interceptors_post().unwrap();
    assert_eq!(pipeline.snapshot().current_state, NivasaRequestState::SendingResponse);
    pipeline.complete_response().unwrap();

    assert_eq!(pipeline.snapshot().current_state, NivasaRequestState::Done);
}

#[test]
fn request_pipeline_short_circuits_guard_denials_via_scxml() {
    let mut pipeline = matched_pipeline();

    pipeline.deny_guards().unwrap();
    assert_eq!(pipeline.snapshot().current_state, NivasaRequestState::ErrorHandling);
    assert_latest_transition(
        &pipeline,
        NivasaRequestState::GuardChain,
        NivasaRequestEvent::GuardDenied,
        Some(NivasaRequestState::ErrorHandling),
    );
    pipeline.handle_filter().unwrap();
    assert_eq!(pipeline.snapshot().current_state, NivasaRequestState::SendingResponse);
    pipeline.fail_send().unwrap();

    assert_eq!(pipeline.snapshot().current_state, NivasaRequestState::Done);
    assert_latest_transition(
        &pipeline,
        NivasaRequestState::SendingResponse,
        NivasaRequestEvent::ErrorSend,
        Some(NivasaRequestState::Done),
    );
}

#[test]
fn request_pipeline_routes_late_stage_errors_through_error_handling() {
    let mut guard_error = matched_pipeline();
    guard_error.fail_guards().unwrap();
    assert_eq!(guard_error.snapshot().current_state, NivasaRequestState::ErrorHandling);
    assert_latest_transition(
        &guard_error,
        NivasaRequestState::GuardChain,
        NivasaRequestEvent::ErrorGuard,
        Some(NivasaRequestState::ErrorHandling),
    );

    let mut interceptor_error = matched_pipeline();
    interceptor_error.pass_guards().unwrap();
    interceptor_error.fail_interceptors_pre().unwrap();
    assert_eq!(interceptor_error.snapshot().current_state, NivasaRequestState::ErrorHandling);
    assert_latest_transition(
        &interceptor_error,
        NivasaRequestState::InterceptorPre,
        NivasaRequestEvent::ErrorInterceptor,
        Some(NivasaRequestState::ErrorHandling),
    );

    let mut validation_error = matched_pipeline();
    validation_error.pass_guards().unwrap();
    validation_error.complete_interceptors_pre().unwrap();
    validation_error.fail_validation().unwrap();
    assert_eq!(validation_error.snapshot().current_state, NivasaRequestState::ErrorHandling);
    assert_latest_transition(
        &validation_error,
        NivasaRequestState::PipeTransform,
        NivasaRequestEvent::ErrorValidation,
        Some(NivasaRequestState::ErrorHandling),
    );

    let mut pipe_error = matched_pipeline();
    pipe_error.pass_guards().unwrap();
    pipe_error.complete_interceptors_pre().unwrap();
    pipe_error.fail_pipes().unwrap();
    assert_eq!(pipe_error.snapshot().current_state, NivasaRequestState::ErrorHandling);
    assert_latest_transition(
        &pipe_error,
        NivasaRequestState::PipeTransform,
        NivasaRequestEvent::ErrorPipe,
        Some(NivasaRequestState::ErrorHandling),
    );

    let mut handler_error = matched_pipeline();
    handler_error.pass_guards().unwrap();
    handler_error.complete_interceptors_pre().unwrap();
    handler_error.complete_pipes().unwrap();
    handler_error.fail_handler().unwrap();
    assert_eq!(handler_error.snapshot().current_state, NivasaRequestState::ErrorHandling);
    assert_latest_transition(
        &handler_error,
        NivasaRequestState::HandlerExecution,
        NivasaRequestEvent::ErrorHandler,
        Some(NivasaRequestState::ErrorHandling),
    );

    let mut interceptor_post_error = matched_pipeline();
    interceptor_post_error.pass_guards().unwrap();
    interceptor_post_error.complete_interceptors_pre().unwrap();
    interceptor_post_error.complete_pipes().unwrap();
    interceptor_post_error.complete_handler().unwrap();
    interceptor_post_error.fail_interceptors_post().unwrap();
    assert_eq!(interceptor_post_error.snapshot().current_state, NivasaRequestState::ErrorHandling);
    assert_latest_transition(
        &interceptor_post_error,
        NivasaRequestState::InterceptorPost,
        NivasaRequestEvent::ErrorInterceptorPost,
        Some(NivasaRequestState::ErrorHandling),
    );
}

#[test]
fn request_pipeline_routes_unhandled_filter_outcomes_through_scxml() {
    let mut pipeline = matched_pipeline();

    pipeline.deny_guards().unwrap();
    pipeline.fail_filter_unhandled().unwrap();
    assert_eq!(pipeline.snapshot().current_state, NivasaRequestState::SendingResponse);
    assert_latest_transition(
        &pipeline,
        NivasaRequestState::ErrorHandling,
        NivasaRequestEvent::ErrorFilterUnhandled,
        Some(NivasaRequestState::SendingResponse),
    );
    pipeline.complete_response().unwrap();

    assert_eq!(pipeline.snapshot().current_state, NivasaRequestState::Done);
}

#[test]
fn invalid_stage_skip_is_refused_and_logged() {
    let request = NivasaRequest::new("GET", "/users/42", Body::empty());
    let mut pipeline = RequestPipeline::new(request);

    let error = pipeline.complete_middleware().expect_err("skipping a stage is refused");
    assert_eq!(error.from, NivasaRequestState::Received);
    assert_eq!(error.event, NivasaRequestEvent::MiddlewareComplete);
    assert_eq!(pipeline.current_state(), NivasaRequestState::Received);
    assert_latest_transition(&pipeline, NivasaRequestState::Received, NivasaRequestEvent::MiddlewareComplete, None);
}

#[test]
fn done_accepts_no_event() {
    let mut pipeline = matched_pipeline();
    pipeline.deny_guards().unwrap();
    pipeline.handle_filter().unwrap();
    pipeline.complete_response().unwrap();
    assert_eq!(pipeline.current_state(), NivasaRequestState::Done);
    assert!(pipeline.complete_response().is_err());
    assert!(pipeline.fail_send().is_err());
    assert_eq!(pipeline.current_state(), NivasaRequestState::Done);
}

#[test]
fn guard_chain_passes_when_all_guards_allow() {
    let mut pipeline = matched_pipeline();
    let outcome = pipeline
        .evaluate_guard_chain(&[GuardVerdict::Allow, GuardVerdict::Allow])
        .unwrap();
    assert!(matches!(outcome, GuardExecutionOutcome::Passed));
    assert_eq!(pipeline.current_state(), NivasaRequestState::InterceptorPre);
}

#[test]
fn guard_chain_stops_at_the_first_denial() {
    let mut pipeline = matched_pipeline();
    let outcome = pipeline
        .evaluate_guard_chain(&[
            GuardVerdict::Allow,
            GuardVerdict::Deny,
            GuardVerdict::Error(HttpException::forbidden("later")),
        ])
        .unwrap();
    assert!(matches!(outcome, GuardExecutionOutcome::Denied));
    assert_eq!(pipeline.current_state(), NivasaRequestState::ErrorHandling);
}

#[test]
fn guard_chain_reports_the_first_guard_error() {
    let mut pipeline = matched_pipeline();
    let outcome = pipeline
        .evaluate_guard_chain(&[GuardVerdict::Allow, GuardVerdict::Error(HttpException::forbidden("blocked"))])
        .unwrap();
    match outcome {
        GuardExecutionOutcome::Error(error) => {
            assert_eq!(error.status_code, 403);
            assert_eq!(error.message, "blocked");
        }
        other => panic!("expected guard error outcome, got {other:?}"),
    }
    assert_eq!(pipeline.current_state(), NivasaRequestState::ErrorHandling);
}

#[test]
fn empty_guard_chain_passes() {
    let mut pipeline = matched_pipeline();
    let outcome = pipeline.evaluate_guard_chain(&[]).unwrap();
    assert!(matches!(outcome, GuardExecutionOutcome::Passed));
}

#[test]
fn guard_chain_outside_the_guard_stage_is_refused() {
    let mut pipeline = ready_pipeline();
    assert!(pipeline.evaluate_guard_chain(&[GuardVerdict::Allow]).is_err());
    assert_eq!(pipeline.current_state(), NivasaRequestState::RouteMatching);
}

struct AllowGuard;

impl Guard for AllowGuard {
    fn activation(&self, _context: ExecutionContext) -> Result<bool, HttpException> {
        Ok(true)
    }

    fn can_activate(&self, _context: &ExecutionContext) -> Result<bool, HttpException> {
        Ok(true)
    }
}

struct DenyGuard;

impl Guard for DenyGuard {
    fn activation(&self, _context: ExecutionContext) -> Result<bool, HttpException> {
        Ok(false)
    }

    fn can_activate(&self, _context: &ExecutionContext) -> Result<bool, HttpException> {
        Ok(false)
    }
}

struct ErrorGuard;

impl Guard for ErrorGuard {
    fn activation(&self, _context: ExecutionContext) -> Result<bool, HttpException> {
        Err(HttpException::forbidden("blocked"))
    }

    fn can_activate(&self, _context: &ExecutionContext) -> Result<bool, HttpException> {
        Err(HttpException::forbidden("blocked"))
    }
}

enum SequenceGuardOutcome {
    Allow,
    Deny,
    Error(&'static str),
}

struct SequenceGuard {
    label: &'static str,
    outcome: SequenceGuardOutcome,
    calls: Arc<Mutex<Vec<&'static str>>>,
}

impl SequenceGuard {
    fn answer(&self) -> Result<bool, HttpException> {
        match self.outcome {
            SequenceGuardOutcome::Allow => Ok(true),
            SequenceGuardOutcome::Deny => Ok(false),
            SequenceGuardOutcome::Error(message) => Err(HttpException::forbidden(message)),
        }
    }
}

impl Guard for SequenceGuard {
    fn activation(&self, _context: ExecutionContext) -> Result<bool, HttpException> {
        self.answer()
    }

    fn can_activate(&self, _context: &ExecutionContext) -> Result<bool, HttpException> {
        self.calls.lock().unwrap().push(self.label);
        self.answer()
    }
}

#[test]
fn request_pipeline_can_evaluate_guard_results_through_scxml() {
    let context = ExecutionContext::empty();

    let mut passed = matched_pipeline();
    let passed_outcome = passed.run_guard_chain(&[&AllowGuard], &context);
    assert!(matches!(passed_outcome.unwrap(), GuardExecutionOutcome::Passed));
    assert_eq!(passed.snapshot().current_state, NivasaRequestState::InterceptorPre);

    let mut denied = matched_pipeline();
    let denied_outcome = denied.run_guard_chain(&[&DenyGuard], &context);
    assert!(matches!(denied_outcome.unwrap(), GuardExecutionOutcome::Denied));
    assert_eq!(denied.snapshot().current_state, NivasaRequestState::ErrorHandling);
    assert_latest_transition(
        &denied,
        NivasaRequestState::GuardChain,
        NivasaRequestEvent::GuardDenied,
        Some(NivasaRequestState::ErrorHandling),
    );

    let mut errored = matched_pipeline();
    let error_outcome = errored.run_guard_chain(&[&ErrorGuard], &context);
    match error_outcome.unwrap() {
        GuardExecutionOutcome::Error(error) => {
            assert_eq!(error.status_code, 403);
            assert_eq!(error.message, "blocked");
        }
        other => panic!("expected guard error outcome, got {other:?}"),
    }
    assert_eq!(errored.snapshot().current_state, NivasaRequestState::ErrorHandling);
    assert_latest_transition(
        &errored,
        NivasaRequestState::GuardChain,
        NivasaRequestEvent::ErrorGuard,
        Some(NivasaRequestState::ErrorHandling),
    );
}

#[test]
fn request_pipeline_evaluates_multiple_guards_as_an_and_chain() {
    let context = ExecutionContext::empty();
    let calls = Arc::new(Mutex::new(Vec::new()));
    let first = SequenceGuard { label: "first", outcome: SequenceGuardOutcome::Allow, calls: Arc::clone(&calls) };
    let second = SequenceGuard { label: "second", outcome: SequenceGuardOutcome::Allow, calls: Arc::clone(&calls) };

    let mut pipeline = matched_pipeline();
    let outcome = pipeline.run_guard_chain(&[&first, &second], &context);

    assert!(matches!(outcome.unwrap(), GuardExecutionOutcome::Passed));
    assert_eq!(pipeline.snapshot().current_state, NivasaRequestState::InterceptorPre);
    assert_eq!(*calls.lock().unwrap(), vec!["first", "second"]);
}

#[test]
fn request_pipeline_short_circuits_multiple_guards_on_the_first_failure() {
    let context = ExecutionContext::empty();
    let calls = Arc::new(Mutex::new(Vec::new()));
    let allow = SequenceGuard { label: "allow", outcome: SequenceGuardOutcome::Allow, calls: Arc::clone(&calls) };
    let deny = SequenceGuard { label: "deny", outcome: SequenceGuardOutcome::Deny, calls: Arc::clone(&calls) };
    let error = SequenceGuard {
        label: "error",
        outcome: SequenceGuardOutcome::Error("blocked"),
        calls: Arc::clone(&calls),
    };

    let mut denied = matched_pipeline();
    let denied_outcome = denied.run_guard_chain(&[&allow, &deny, &error], &context);
    assert!(matches!(denied_outcome.unwrap(), GuardExecutionOutcome::Denied));
    assert_eq!(denied.snapshot().current_state, NivasaRequestState::ErrorHandling);
    assert_eq!(*calls.lock().unwrap(), vec!["allow", "deny"]);

    calls.lock().unwrap().clear();

    let mut errored = matched_pipeline();
    let errored_outcome = errored.run_guard_chain(&[&allow, &error, &deny], &context);
    match errored_outcome.unwrap() {
        GuardExecutionOutcome::Error(error) => {
            assert_eq!(error.status_code, 403);
            assert_eq!(error.message, "blocked");
        }
        other => panic!("expected guard error outcome, got {other:?}"),
    }
    assert_eq!(errored.snapshot().current_state, NivasaRequestState::ErrorHandling);
    assert_eq!(*calls.lock().unwrap(), vec!["allow", "error"]);
}
