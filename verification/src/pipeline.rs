//! The request lifecycle statechart and the pipeline that drives a request
//! through it.
//!
//! The lifecycle is
//! `Received -> MiddlewareChain -> RouteMatching -> GuardChain -> InterceptorPre
//! -> PipeTransform -> HandlerExecution -> InterceptorPost -> SendingResponse -> Done`,
//! with every stage able to divert into `ErrorHandling`, which in turn leads to
//! `SendingResponse`. The pipeline only moves by typed events and never sets a
//! state directly.
use vstd::prelude::*;
use crate::exception::HttpException;
use crate::guards::{ExecutionContext, Guard};
use crate::request::{NivasaRequest, RequestView, RoutePathCaptures};

verus! {

/// States of the request lifecycle.
#[derive(Copy, Clone, Debug, PartialEq, Eq, Structural)]
pub enum NivasaRequestState {
    Received,
    MiddlewareChain,
    RouteMatching,
    GuardChain,
    InterceptorPre,
    PipeTransform,
    HandlerExecution,
    InterceptorPost,
    ErrorHandling,
    SendingResponse,
    Done,
}

/// Events that move a request through the lifecycle.
#[derive(Copy, Clone, Debug, PartialEq, Eq, Structural)]
pub enum NivasaRequestEvent {
    RequestParsed,
    ErrorParse,
    MiddlewareComplete,
    ErrorMiddleware,
    RouteMatched,
    RouteNotFound,
    RouteMethodNotAllowed,
    GuardsPassed,
    GuardDenied,
    ErrorGuard,
    InterceptorsPreComplete,
    ErrorInterceptor,
    PipesComplete,
    ErrorValidation,
    ErrorPipe,
    HandlerComplete,
    ErrorHandler,
    InterceptorsPostComplete,
    ErrorInterceptorPost,
    FilterHandled,
    ErrorFilterUnhandled,
    ResponseSent,
    ErrorSend,
}

/// The transition table of the lifecycle: where `event` leads from `state`,
/// or `None` when the event is not accepted there.
pub open spec fn next_state(state: NivasaRequestState, event: NivasaRequestEvent) -> Option<
    NivasaRequestState,
> {
    match (state, event) {
        (NivasaRequestState::Received, NivasaRequestEvent::RequestParsed) => Some(
            NivasaRequestState::MiddlewareChain,
        ),
        (NivasaRequestState::Received, NivasaRequestEvent::ErrorParse) => Some(
            NivasaRequestState::ErrorHandling,
        ),
        (NivasaRequestState::MiddlewareChain, NivasaRequestEvent::MiddlewareComplete) => Some(
            NivasaRequestState::RouteMatching,
        ),
        (NivasaRequestState::MiddlewareChain, NivasaRequestEvent::ErrorMiddleware) => Some(
            NivasaRequestState::ErrorHandling,
        ),
        (NivasaRequestState::RouteMatching, NivasaRequestEvent::RouteMatched) => Some(
            NivasaRequestState::GuardChain,
        ),
        (NivasaRequestState::RouteMatching, NivasaRequestEvent::RouteNotFound) => Some(
            NivasaRequestState::ErrorHandling,
        ),
        (NivasaRequestState::RouteMatching, NivasaRequestEvent::RouteMethodNotAllowed) => Some(
            NivasaRequestState::ErrorHandling,
        ),
        (NivasaRequestState::GuardChain, NivasaRequestEvent::GuardsPassed) => Some(
            NivasaRequestState::InterceptorPre,
        ),
        (NivasaRequestState::GuardChain, NivasaRequestEvent::GuardDenied) => Some(
            NivasaRequestState::ErrorHandling,
        ),
        (NivasaRequestState::GuardChain, NivasaRequestEvent::ErrorGuard) => Some(
            NivasaRequestState::ErrorHandling,
        ),
        (NivasaRequestState::InterceptorPre, NivasaRequestEvent::InterceptorsPreComplete) => Some(
            NivasaRequestState::PipeTransform,
        ),
        (NivasaRequestState::InterceptorPre, NivasaRequestEvent::ErrorInterceptor) => Some(
            NivasaRequestState::ErrorHandling,
        ),
        (NivasaRequestState::PipeTransform, NivasaRequestEvent::PipesComplete) => Some(
            NivasaRequestState::HandlerExecution,
        ),
        (NivasaRequestState::PipeTransform, NivasaRequestEvent::ErrorValidation) => Some(
            NivasaRequestState::ErrorHandling,
        ),
        (NivasaRequestState::PipeTransform, NivasaRequestEvent::ErrorPipe) => Some(
            NivasaRequestState::ErrorHandling,
        ),
        (NivasaRequestState::HandlerExecution, NivasaRequestEvent::HandlerComplete) => Some(
            NivasaRequestState::InterceptorPost,
        ),
        (NivasaRequestState::HandlerExecution, NivasaRequestEvent::ErrorHandler) => Some(
            NivasaRequestState::ErrorHandling,
        ),
        (NivasaRequestState::HandlerExecution, NivasaRequestEvent::ErrorInterceptor) => Some(
            NivasaRequestState::ErrorHandling,
        ),
        (NivasaRequestState::InterceptorPost, NivasaRequestEvent::InterceptorsPostComplete) => Some(
            NivasaRequestState::SendingResponse,
        ),
        (NivasaRequestState::InterceptorPost, NivasaRequestEvent::ErrorInterceptorPost) => Some(
            NivasaRequestState::ErrorHandling,
        ),
        (NivasaRequestState::ErrorHandling, NivasaRequestEvent::FilterHandled) => Some(
            NivasaRequestState::SendingResponse,
        ),
        (NivasaRequestState::ErrorHandling, NivasaRequestEvent::ErrorFilterUnhandled) => Some(
            NivasaRequestState::SendingResponse,
        ),
        (NivasaRequestState::SendingResponse, NivasaRequestEvent::ResponseSent) => Some(
            NivasaRequestState::Done,
        ),
        (NivasaRequestState::SendingResponse, NivasaRequestEvent::ErrorSend) => Some(
            NivasaRequestState::Done,
        ),
        _ => None,
    }
}

/// The lifecycle transition for `event` in `state`.
pub fn transition(state: NivasaRequestState, event: NivasaRequestEvent) -> (r: Option<
    NivasaRequestState,
>)
    ensures
        r == next_state(state, event),
{
    match (state, event) {
        (NivasaRequestState::Received, NivasaRequestEvent::RequestParsed) => Some(
            NivasaRequestState::MiddlewareChain,
        ),
        (NivasaRequestState::Received, NivasaRequestEvent::ErrorParse) => Some(
            NivasaRequestState::ErrorHandling,
        ),
        (NivasaRequestState::MiddlewareChain, NivasaRequestEvent::MiddlewareComplete) => Some(
            NivasaRequestState::RouteMatching,
        ),
        (NivasaRequestState::MiddlewareChain, NivasaRequestEvent::ErrorMiddleware) => Some(
            NivasaRequestState::ErrorHandling,
        ),
        (NivasaRequestState::RouteMatching, NivasaRequestEvent::RouteMatched) => Some(
            NivasaRequestState::GuardChain,
        ),
        (NivasaRequestState::RouteMatching, NivasaRequestEvent::RouteNotFound) => Some(
            NivasaRequestState::ErrorHandling,
        ),
        (NivasaRequestState::RouteMatching, NivasaRequestEvent::RouteMethodNotAllowed) => Some(
            NivasaRequestState::ErrorHandling,
        ),
        (NivasaRequestState::GuardChain, NivasaRequestEvent::GuardsPassed) => Some(
            NivasaRequestState::InterceptorPre,
        ),
        (NivasaRequestState::GuardChain, NivasaRequestEvent::GuardDenied) => Some(
            NivasaRequestState::ErrorHandling,
        ),
        (NivasaRequestState::GuardChain, NivasaRequestEvent::ErrorGuard) => Some(
            NivasaRequestState::ErrorHandling,
        ),
        (NivasaRequestState::InterceptorPre, NivasaRequestEvent::InterceptorsPreComplete) => Some(
            NivasaRequestState::PipeTransform,
        ),
        (NivasaRequestState::InterceptorPre, NivasaRequestEvent::ErrorInterceptor) => Some(
            NivasaRequestState::ErrorHandling,
        ),
        (NivasaRequestState::PipeTransform, NivasaRequestEvent::PipesComplete) => Some(
            NivasaRequestState::HandlerExecution,
        ),
        (NivasaRequestState::PipeTransform, NivasaRequestEvent::ErrorValidation) => Some(
            NivasaRequestState::ErrorHandling,
        ),
        (NivasaRequestState::PipeTransform, NivasaRequestEvent::ErrorPipe) => Some(
            NivasaRequestState::ErrorHandling,
        ),
        (NivasaRequestState::HandlerExecution, NivasaRequestEvent::HandlerComplete) => Some(
            NivasaRequestState::InterceptorPost,
        ),
        (NivasaRequestState::HandlerExecution, NivasaRequestEvent::ErrorHandler) => Some(
            NivasaRequestState::ErrorHandling,
        ),
        (NivasaRequestState::HandlerExecution, NivasaRequestEvent::ErrorInterceptor) => Some(
            NivasaRequestState::ErrorHandling,
        ),
        (NivasaRequestState::InterceptorPost, NivasaRequestEvent::InterceptorsPostComplete) => Some(
            NivasaRequestState::SendingResponse,
        ),
        (NivasaRequestState::InterceptorPost, NivasaRequestEvent::ErrorInterceptorPost) => Some(
            NivasaRequestState::ErrorHandling,
        ),
        (NivasaRequestState::ErrorHandling, NivasaRequestEvent::FilterHandled) => Some(
            NivasaRequestState::SendingResponse,
        ),
        (NivasaRequestState::ErrorHandling, NivasaRequestEvent::ErrorFilterUnhandled) => Some(
            NivasaRequestState::SendingResponse,
        ),
        (NivasaRequestState::SendingResponse, NivasaRequestEvent::ResponseSent) => Some(
            NivasaRequestState::Done,
        ),
        (NivasaRequestState::SendingResponse, NivasaRequestEvent::ErrorSend) => Some(
            NivasaRequestState::Done,
        ),
        _ => None,
    }
}

/// One event sent to the pipeline: where it was sent from, and where it led
/// (`None` when the lifecycle refused it).
#[derive(Copy, Clone, Debug, PartialEq, Eq, Structural)]
pub struct TransitionRecord {
    pub from: NivasaRequestState,
    pub event: NivasaRequestEvent,
    pub to: Option<NivasaRequestState>,
}

/// An event that the lifecycle does not accept in the current state.
#[derive(Copy, Clone, Debug, PartialEq, Eq, Structural)]
pub struct InvalidTransitionError {
    pub from: NivasaRequestState,
    pub event: NivasaRequestEvent,
}

/// Current state and the log of events sent, for debug inspection.
#[derive(Clone, Debug, PartialEq, Eq)]
pub struct StatechartSnapshot {
    pub current_state: NivasaRequestState,
    pub recent_transitions: Vec<TransitionRecord>,
}

/// The outcome of route lookup that the pipeline acts on.
#[derive(Clone, Debug, PartialEq, Eq)]
pub enum RouteDispatchOutcome {
    /// A route matched; the captures of its pattern, when they could be resolved.
    Matched(Option<RoutePathCaptures>),
    /// The path exists for other methods only.
    MethodNotAllowed { allowed_methods: Vec<String> },
    NotFound,
}

/// Result of evaluating guards against the request pipeline.
#[derive(Clone, Debug)]
pub enum GuardExecutionOutcome {
    Passed,
    Denied,
    Error(HttpException),
}

/// The answer of one guard.
#[derive(Clone, Debug)]
pub enum GuardVerdict {
    Allow,
    Deny,
    Error(HttpException),
}

/// The lifecycle event a route lookup outcome sends.
pub open spec fn route_event(outcome: RouteDispatchOutcome) -> NivasaRequestEvent {
    match outcome {
        RouteDispatchOutcome::Matched(_) => NivasaRequestEvent::RouteMatched,
        RouteDispatchOutcome::MethodNotAllowed { .. } => NivasaRequestEvent::RouteMethodNotAllowed,
        RouteDispatchOutcome::NotFound => NivasaRequestEvent::RouteNotFound,
    }
}

/// The event sent after a guard chain: the first non-allowing guard decides.
pub open spec fn guard_chain_event(verdicts: Seq<GuardVerdict>) -> NivasaRequestEvent
    decreases verdicts.len(),
{
    if verdicts.len() == 0 {
        NivasaRequestEvent::GuardsPassed
    } else {
        match verdicts[0] {
            GuardVerdict::Allow => guard_chain_event(verdicts.drop_first()),
            GuardVerdict::Deny => NivasaRequestEvent::GuardDenied,
            GuardVerdict::Error(_) => NivasaRequestEvent::ErrorGuard,
        }
    }
}

/// Index of the first guard that does not allow the request.
pub open spec fn first_refusal(verdicts: Seq<GuardVerdict>) -> Option<int>
    decreases verdicts.len(),
{
    if verdicts.len() == 0 {
        None
    } else {
        match verdicts[0] {
            GuardVerdict::Allow => match first_refusal(verdicts.drop_first()) {
                Some(i) => Some(i + 1),
                None => None,
            },
            _ => Some(0),
        }
    }
}

/// The verdicts of a guard chain of `n` guards as run: every verdict but
/// the last allows, and the chain stopped early only at a refusal.
pub open spec fn chain_ran(verdicts: Seq<GuardVerdict>, n: int) -> bool {
    &&& verdicts.len() <= n
    &&& forall|i: int| 0 <= i < verdicts.len() - 1 ==> #[trigger] verdicts[i] is Allow
    &&& verdicts.len() < n ==> verdicts.len() > 0 && !(verdicts.last() is Allow)
}

/// How a guard chain with `verdicts` concludes from state `s0`: the state
/// it leads to, whether the lifecycle accepted it, and the outcome.
pub open spec fn guard_chain_concluded(
    s0: NivasaRequestState,
    s1: NivasaRequestState,
    verdicts: Seq<GuardVerdict>,
    r: Result<GuardExecutionOutcome, InvalidTransitionError>,
) -> bool {
    &&& s1 == match next_state(s0, guard_chain_event(verdicts)) {
        Some(n) => n,
        None => s0,
    }
    &&& (r is Ok <==> next_state(s0, guard_chain_event(verdicts)) is Some)
    &&& r is Ok ==> match first_refusal(verdicts) {
        None => r->Ok_0 is Passed,
        Some(i) => match verdicts[i] {
            GuardVerdict::Deny => r->Ok_0 is Denied,
            GuardVerdict::Error(e) => r->Ok_0 == GuardExecutionOutcome::Error(e),
            GuardVerdict::Allow => false,
        },
    }
}

/// The verdict a guard's answer gives.
pub open spec fn verdict_of(answer: Result<bool, HttpException>) -> GuardVerdict {
    match answer {
        Ok(true) => GuardVerdict::Allow,
        Ok(false) => GuardVerdict::Deny,
        Err(e) => GuardVerdict::Error(e),
    }
}

/// Each verdict is the answer of the guard at its place.
pub open spec fn verdicts_answer(verdicts: Seq<GuardVerdict>, guards: Seq<&dyn Guard>, context: ExecutionContext) -> bool {
    forall|i: int| 0 <= i < verdicts.len() ==> #[trigger] verdicts[i] == verdict_of(guards[i].activation(context))
}

/// The verdicts of running `guards` in order on `context`: each guard's
/// verdict, up to and including the first that does not allow.
pub open spec fn chain_verdicts(guards: Seq<&dyn Guard>, context: ExecutionContext) -> Seq<GuardVerdict>
    decreases guards.len(),
{
    if guards.len() == 0 {
        Seq::empty()
    } else {
        let v = verdict_of(guards[0].activation(context));
        if v is Allow {
            seq![v] + chain_verdicts(guards.drop_first(), context)
        } else {
            seq![v]
        }
    }
}

/// Verdicts shaped as a chain run and answering the guards are exactly
/// `chain_verdicts`.
proof fn lemma_chain_verdicts_determined(
    verdicts: Seq<GuardVerdict>,
    guards: Seq<&dyn Guard>,
    context: ExecutionContext,
)
    requires
        chain_ran(verdicts, guards.len() as int),
        verdicts_answer(verdicts, guards, context),
    ensures
        verdicts == chain_verdicts(guards, context),
    decreases guards.len(),
{
    if guards.len() == 0 {
        assert(verdicts =~= Seq::<GuardVerdict>::empty());
    } else {
        assert(verdicts.len() > 0);
        let v0 = verdict_of(guards[0].activation(context));
        assert(verdicts[0] == v0);
        if v0 is Allow {
            let rest = verdicts.drop_first();
            let g = guards.drop_first();
            if rest.len() == 0 {
                assert(verdicts.last() == v0);
                assert(guards.len() == 1);
                assert(g =~= Seq::<&dyn Guard>::empty());
            }
            assert forall|i: int| 0 <= i < rest.len() - 1 implies #[trigger] rest[i] is Allow by {
                assert(rest[i] == verdicts[i + 1]);
            }
            assert forall|i: int| 0 <= i < rest.len() implies #[trigger] rest[i] == verdict_of(
                g[i].activation(context),
            ) by {
                assert(rest[i] == verdicts[i + 1]);
                assert(g[i] == guards[i + 1]);
            }
            if rest.len() > 0 {
                assert(rest.last() == verdicts.last());
            }
            lemma_chain_verdicts_determined(rest, g, context);
            assert(verdicts =~= seq![v0] + rest);
        } else {
            if verdicts.len() > 1 {
                assert(verdicts[0] is Allow);
            }
            assert(verdicts =~= seq![v0]);
        }
    }
}

/// Run `guards` in order, stopping after the first that does not allow.
pub fn run_guards(guards: &[&dyn Guard], context: &ExecutionContext) -> (r: Vec<GuardVerdict>)
    ensures
        chain_ran(r@, guards@.len() as int),
        verdicts_answer(r@, guards@, *context),
        r@ == chain_verdicts(guards@, *context),
{
    let mut verdicts: Vec<GuardVerdict> = Vec::new();
    let mut i: usize = 0;
    while i < guards.len()
        invariant
            i <= guards@.len(),
            verdicts@.len() == i,
            forall|j: int| 0 <= j < i ==> #[trigger] verdicts@[j] is Allow,
            verdicts_answer(verdicts@, guards@, *context),
        decreases guards@.len() - i,
    {
        let verdict = match guards[i].can_activate(context) {
            Ok(true) => GuardVerdict::Allow,
            Ok(false) => GuardVerdict::Deny,
            Err(e) => GuardVerdict::Error(e),
        };
        let refused = match &verdict {
            GuardVerdict::Allow => false,
            _ => true,
        };
        verdicts.push(verdict);
        if refused {
            proof {
                lemma_chain_verdicts_determined(verdicts@, guards@, *context);
            }
            return verdicts;
        }
        i += 1;
    }
    proof {
        lemma_chain_verdicts_determined(verdicts@, guards@, *context);
    }
    verdicts
}

/// An owned copy of an exception.
fn copy_exception(e: &HttpException) -> (r: HttpException)
    ensures
        r == *e,
{
    HttpException {
        status_code: e.status_code,
        message: e.message.clone(),
        details: match &e.details {
            Some(d) => Some(d.clone()),
            None => None,
        },
    }
}

/// Coordinator that drives one request through the lifecycle stages.
pub struct RequestPipeline {
    state: NivasaRequestState,
    transitions: Vec<TransitionRecord>,
    request: NivasaRequest,
}

impl RequestPipeline {
    pub closed spec fn state(&self) -> NivasaRequestState {
        self.state
    }

    pub closed spec fn log(&self) -> Seq<TransitionRecord> {
        self.transitions@
    }

    pub closed spec fn request_view(&self) -> RequestView {
        self.request@
    }

    /// A pipeline for `request`, in the `Received` state with an empty log.
    pub fn new(request: NivasaRequest) -> (r: Self)
        ensures
            r.state() == NivasaRequestState::Received,
            r.log().len() == 0,
            r.request_view() == request@,
    {
        RequestPipeline { state: NivasaRequestState::Received, transitions: Vec::new(), request }
    }

    /// The underlying request.
    pub fn request(&self) -> (r: &NivasaRequest)
        ensures
            r@ == self.request_view(),
    {
        &self.request
    }

    /// Replace the underlying request (after middleware forwarded a new one).
    pub fn replace_request(&mut self, request: NivasaRequest)
        ensures
            final(self).request_view() == request@,
            final(self).state() == old(self).state(),
            final(self).log() == old(self).log(),
    {
        self.request = request;
    }

    /// Replace the body of the underlying request (after pipes transformed it).
    pub fn set_request_body(&mut self, body: crate::body::Body)
        ensures
            final(self).request_view() == (RequestView { body: body@, ..old(self).request_view() }),
            final(self).state() == old(self).state(),
            final(self).log() == old(self).log(),
    {
        self.request.set_body(body);
    }

    /// The current lifecycle state.
    pub fn current_state(&self) -> (r: NivasaRequestState)
        ensures
            r == self.state(),
    {
        self.state
    }

    /// The current state and the log of events sent so far.
    pub fn snapshot(&self) -> (r: StatechartSnapshot)
        ensures
            r.current_state == self.state(),
            r.recent_transitions@ == self.log(),
    {
        StatechartSnapshot { current_state: self.state, recent_transitions: self.transitions.clone() }
    }

    /// Send `event`: move along the transition it names, or refuse it and stay.
    /// Either way the attempt is logged.
    pub fn send_event(&mut self, event: NivasaRequestEvent) -> (r: Result<
        NivasaRequestState,
        InvalidTransitionError,
    >)
        ensures
            final(self).request_view() == old(self).request_view(),
            match next_state(old(self).state(), event) {
                Some(next) => r == Ok::<NivasaRequestState, InvalidTransitionError>(next)
                    && final(self).state() == next,
                None => r == Err::<NivasaRequestState, InvalidTransitionError>(
                    InvalidTransitionError { from: old(self).state(), event },
                ) && final(self).state() == old(self).state(),
            },
            final(self).log() == old(self).log().push(
                TransitionRecord {
                    from: old(self).state(),
                    event,
                    to: next_state(old(self).state(), event),
                },
            ),
    {
        let from = self.state;
        let to = transition(from, event);
        self.transitions.push(TransitionRecord { from, event, to });
        match to {
            Some(next) => {
                self.state = next;
                Ok(next)
            },
            None => Err(InvalidTransitionError { from, event }),
        }
    }

    /// Mark the request as parsed.
    pub fn parse_request(&mut self) -> (r: Result<NivasaRequestState, InvalidTransitionError>)
        ensures
            final(self).request_view() == old(self).request_view(),
            final(self).state() == match next_state(old(self).state(), NivasaRequestEvent::RequestParsed) {
                Some(n) => n,
                None => old(self).state(),
            },
            r is Ok <==> next_state(old(self).state(), NivasaRequestEvent::RequestParsed) is Some,
    {
        self.send_event(NivasaRequestEvent::RequestParsed)
    }

    /// Route the request into the error path from a parse failure.
    pub fn fail_parse(&mut self) -> (r: Result<NivasaRequestState, InvalidTransitionError>)
        ensures
            final(self).request_view() == old(self).request_view(),
            final(self).state() == match next_state(old(self).state(), NivasaRequestEvent::ErrorParse) {
                Some(n) => n,
                None => old(self).state(),
            },
            r is Ok <==> next_state(old(self).state(), NivasaRequestEvent::ErrorParse) is Some,
    {
        self.send_event(NivasaRequestEvent::ErrorParse)
    }

    /// Mark middleware as complete.
    pub fn complete_middleware(&mut self) -> (r: Result<NivasaRequestState, InvalidTransitionError>)
        ensures
            final(self).request_view() == old(self).request_view(),
            final(self).state() == match next_state(old(self).state(), NivasaRequestEvent::MiddlewareComplete) {
                Some(n) => n,
                None => old(self).state(),
            },
            r is Ok <==> next_state(old(self).state(), NivasaRequestEvent::MiddlewareComplete) is Some,
    {
        self.send_event(NivasaRequestEvent::MiddlewareComplete)
    }

    /// Mark middleware as failed.
    pub fn fail_middleware(&mut self) -> (r: Result<NivasaRequestState, InvalidTransitionError>)
        ensures
            final(self).request_view() == old(self).request_view(),
            final(self).state() == match next_state(old(self).state(), NivasaRequestEvent::ErrorMiddleware) {
                Some(n) => n,
                None => old(self).state(),
            },
            r is Ok <==> next_state(old(self).state(), NivasaRequestEvent::ErrorMiddleware) is Some,
    {
        self.send_event(NivasaRequestEvent::ErrorMiddleware)
    }

    /// Act on a route lookup: attach the captured path parameters of a match
    /// (clearing them otherwise), then send the matching lifecycle event.
    pub fn match_route(&mut self, outcome: RouteDispatchOutcome) -> (r: Result<
        NivasaRequestState,
        InvalidTransitionError,
    >)
        ensures
            final(self).request_view() == (RequestView {
                path_params: match outcome {
                    RouteDispatchOutcome::Matched(Some(c)) => Some(c@),
                    _ => None,
                },
                ..old(self).request_view()
            }),
            final(self).state() == match next_state(old(self).state(), route_event(outcome)) {
                Some(n) => n,
                None => old(self).state(),
            },
            r is Ok <==> next_state(old(self).state(), route_event(outcome)) is Some,
    {
        let event = match outcome {
            RouteDispatchOutcome::Matched(captures) => {
                match captures {
                    Some(c) => self.request.set_path_params(c),
                    None => self.request.clear_path_params(),
                }
                NivasaRequestEvent::RouteMatched
            },
            RouteDispatchOutcome::MethodNotAllowed { .. } => {
                self.request.clear_path_params();
                NivasaRequestEvent::RouteMethodNotAllowed
            },
            RouteDispatchOutcome::NotFound => {
                self.request.clear_path_params();
                NivasaRequestEvent::RouteNotFound
            },
        };
        self.send_event(event)
    }

    /// Mark guard evaluation as successful.
    pub fn pass_guards(&mut self) -> (r: Result<NivasaRequestState, InvalidTransitionError>)
        ensures
            final(self).request_view() == old(self).request_view(),
            final(self).state() == match next_state(old(self).state(), NivasaRequestEvent::GuardsPassed) {
                Some(n) => n,
                None => old(self).state(),
            },
            r is Ok <==> next_state(old(self).state(), NivasaRequestEvent::GuardsPassed) is Some,
    {
        self.send_event(NivasaRequestEvent::GuardsPassed)
    }

    /// Enter the error path because a guard denied the request.
    pub fn deny_guards(&mut self) -> (r: Result<NivasaRequestState, InvalidTransitionError>)
        ensures
            final(self).request_view() == old(self).request_view(),
            final(self).state() == match next_state(old(self).state(), NivasaRequestEvent::GuardDenied) {
                Some(n) => n,
                None => old(self).state(),
            },
            r is Ok <==> next_state(old(self).state(), NivasaRequestEvent::GuardDenied) is Some,
    {
        self.send_event(NivasaRequestEvent::GuardDenied)
    }

    /// Enter the error path because guard evaluation failed.
    pub fn fail_guards(&mut self) -> (r: Result<NivasaRequestState, InvalidTransitionError>)
        ensures
            final(self).request_view() == old(self).request_view(),
            final(self).state() == match next_state(old(self).state(), NivasaRequestEvent::ErrorGuard) {
                Some(n) => n,
                None => old(self).state(),
            },
            r is Ok <==> next_state(old(self).state(), NivasaRequestEvent::ErrorGuard) is Some,
    {
        self.send_event(NivasaRequestEvent::ErrorGuard)
    }

    /// Conclude a guard chain from the verdicts of the guards run so far, in
    /// order: every guard must allow for the chain to pass; the first deny or
    /// error decides the outcome and the event sent.
    pub fn evaluate_guard_chain(&mut self, verdicts: &[GuardVerdict]) -> (r: Result<
        GuardExecutionOutcome,
        InvalidTransitionError,
    >)
        ensures
            final(self).request_view() == old(self).request_view(),
            final(self).state() == match next_state(old(self).state(), guard_chain_event(verdicts@)) {
                Some(n) => n,
                None => old(self).state(),
            },
            r is Ok <==> next_state(old(self).state(), guard_chain_event(verdicts@)) is Some,
            r is Ok ==> match first_refusal(verdicts@) {
                None => r->Ok_0 is Passed,
                Some(i) => match verdicts@[i] {
                    GuardVerdict::Deny => r->Ok_0 is Denied,
                    GuardVerdict::Error(e) => r->Ok_0 == GuardExecutionOutcome::Error(e),
                    GuardVerdict::Allow => false,
                },
            },
    {
        let mut i: usize = 0;
        assert(verdicts@.skip(0) =~= verdicts@);
        while i < verdicts.len()
            invariant
                i <= verdicts@.len(),
                guard_chain_event(verdicts@) == guard_chain_event(verdicts@.skip(i as int)),
                first_refusal(verdicts@) == match first_refusal(verdicts@.skip(i as int)) {
                    Some(k) => Some(k + i),
                    None => None,
                },
                self.state() == old(self).state(),
                self.request_view() == old(self).request_view(),
            decreases verdicts@.len() - i,
        {
            assert(verdicts@.skip(i as int).drop_first() =~= verdicts@.skip(i + 1));
            assert(verdicts@.skip(i as int)[0] == verdicts@[i as int]);
            match &verdicts[i] {
                GuardVerdict::Allow => {},
                GuardVerdict::Deny => {
                    return match self.deny_guards() {
                        Ok(_) => Ok(GuardExecutionOutcome::Denied),
                        Err(e) => Err(e),
                    };
                },
                GuardVerdict::Error(e) => {
                    let e = copy_exception(e);
                    return match self.fail_guards() {
                        Ok(_) => Ok(GuardExecutionOutcome::Error(e)),
                        Err(err) => Err(err),
                    };
                },
            }
            i += 1;
        }
        assert(verdicts@.skip(i as int) =~= Seq::<GuardVerdict>::empty());
        match self.pass_guards() {
            Ok(_) => Ok(GuardExecutionOutcome::Passed),
            Err(e) => Err(e),
        }
    }

    /// Conclude a single guard from its verdict.
    pub fn evaluate_guard(&mut self, verdict: GuardVerdict) -> (r: Result<
        GuardExecutionOutcome,
        InvalidTransitionError,
    >)
        ensures
            final(self).request_view() == old(self).request_view(),
            final(self).state() == match next_state(old(self).state(), guard_chain_event(seq![verdict])) {
                Some(n) => n,
                None => old(self).state(),
            },
            r is Ok <==> next_state(old(self).state(), guard_chain_event(seq![verdict])) is Some,
            r is Ok ==> match verdict {
                GuardVerdict::Allow => r->Ok_0 is Passed,
                GuardVerdict::Deny => r->Ok_0 is Denied,
                GuardVerdict::Error(e) => r->Ok_0 == GuardExecutionOutcome::Error(e),
            },
    {
        let ghost v = verdict;
        let verdicts = vec![verdict];
        assert(verdicts@ =~= seq![v]);
        assert(verdicts@.drop_first() =~= Seq::<GuardVerdict>::empty());
        assert(verdicts@[0] == v);
        assert(first_refusal(Seq::<GuardVerdict>::empty()) is None);
        assert(first_refusal(seq![v]) == if v is Allow { None::<int> } else { Some(0int) });
        self.evaluate_guard_chain(verdicts.as_slice())
    }

    /// Run `guards` in order against `context`, stopping at the first that
    /// does not allow the request, and conclude the chain from their
    /// verdicts: the chain passes only when every guard allows.
    pub fn run_guard_chain(&mut self, guards: &[&dyn Guard], context: &ExecutionContext) -> (r: Result<
        GuardExecutionOutcome,
        InvalidTransitionError,
    >)
        ensures
            final(self).request_view() == old(self).request_view(),
            guard_chain_concluded(
                old(self).state(),
                final(self).state(),
                chain_verdicts(guards@, *context),
                r,
            ),
    {
        let verdicts = run_guards(guards, context);
        self.evaluate_guard_chain(verdicts.as_slice())
    }

    /// Mark interceptor pre-processing as complete.
    pub fn complete_interceptors_pre(&mut self) -> (r: Result<NivasaRequestState, InvalidTransitionError>)
        ensures
            final(self).request_view() == old(self).request_view(),
            final(self).state() == match next_state(old(self).state(), NivasaRequestEvent::InterceptorsPreComplete) {
                Some(n) => n,
                None => old(self).state(),
            },
            r is Ok <==> next_state(old(self).state(), NivasaRequestEvent::InterceptorsPreComplete) is Some,
    {
        self.send_event(NivasaRequestEvent::InterceptorsPreComplete)
    }

    /// Enter the error path because a pre-handler interceptor failed.
    pub fn fail_interceptors_pre(&mut self) -> (r: Result<NivasaRequestState, InvalidTransitionError>)
        ensures
            final(self).request_view() == old(self).request_view(),
            final(self).state() == match next_state(old(self).state(), NivasaRequestEvent::ErrorInterceptor) {
                Some(n) => n,
                None => old(self).state(),
            },
            r is Ok <==> next_state(old(self).state(), NivasaRequestEvent::ErrorInterceptor) is Some,
    {
        self.send_event(NivasaRequestEvent::ErrorInterceptor)
    }

    /// Mark pipe execution as complete.
    pub fn complete_pipes(&mut self) -> (r: Result<NivasaRequestState, InvalidTransitionError>)
        ensures
            final(self).request_view() == old(self).request_view(),
            final(self).state() == match next_state(old(self).state(), NivasaRequestEvent::PipesComplete) {
                Some(n) => n,
                None => old(self).state(),
            },
            r is Ok <==> next_state(old(self).state(), NivasaRequestEvent::PipesComplete) is Some,
    {
        self.send_event(NivasaRequestEvent::PipesComplete)
    }

    /// Enter the error path because validation failed.
    pub fn fail_validation(&mut self) -> (r: Result<NivasaRequestState, InvalidTransitionError>)
        ensures
            final(self).request_view() == old(self).request_view(),
            final(self).state() == match next_state(old(self).state(), NivasaRequestEvent::ErrorValidation) {
                Some(n) => n,
                None => old(self).state(),
            },
            r is Ok <==> next_state(old(self).state(), NivasaRequestEvent::ErrorValidation) is Some,
    {
        self.send_event(NivasaRequestEvent::ErrorValidation)
    }

    /// Enter the error path because pipe execution failed.
    pub fn fail_pipes(&mut self) -> (r: Result<NivasaRequestState, InvalidTransitionError>)
        ensures
            final(self).request_view() == old(self).request_view(),
            final(self).state() == match next_state(old(self).state(), NivasaRequestEvent::ErrorPipe) {
                Some(n) => n,
                None => old(self).state(),
            },
            r is Ok <==> next_state(old(self).state(), NivasaRequestEvent::ErrorPipe) is Some,
    {
        self.send_event(NivasaRequestEvent::ErrorPipe)
    }

    /// Mark handler execution as complete.
    pub fn complete_handler(&mut self) -> (r: Result<NivasaRequestState, InvalidTransitionError>)
        ensures
            final(self).request_view() == old(self).request_view(),
            final(self).state() == match next_state(old(self).state(), NivasaRequestEvent::HandlerComplete) {
                Some(n) => n,
                None => old(self).state(),
            },
            r is Ok <==> next_state(old(self).state(), NivasaRequestEvent::HandlerComplete) is Some,
    {
        self.send_event(NivasaRequestEvent::HandlerComplete)
    }

    /// Enter the error path because handler execution failed.
    pub fn fail_handler(&mut self) -> (r: Result<NivasaRequestState, InvalidTransitionError>)
        ensures
            final(self).request_view() == old(self).request_view(),
            final(self).state() == match next_state(old(self).state(), NivasaRequestEvent::ErrorHandler) {
                Some(n) => n,
                None => old(self).state(),
            },
            r is Ok <==> next_state(old(self).state(), NivasaRequestEvent::ErrorHandler) is Some,
    {
        self.send_event(NivasaRequestEvent::ErrorHandler)
    }

    /// Mark interceptor post-processing as complete.
    pub fn complete_interceptors_post(&mut self) -> (r: Result<NivasaRequestState, InvalidTransitionError>)
        ensures
            final(self).request_view() == old(self).request_view(),
            final(self).state() == match next_state(old(self).state(), NivasaRequestEvent::InterceptorsPostComplete) {
                Some(n) => n,
                None => old(self).state(),
            },
            r is Ok <==> next_state(old(self).state(), NivasaRequestEvent::InterceptorsPostComplete) is Some,
    {
        self.send_event(NivasaRequestEvent::InterceptorsPostComplete)
    }

    /// Enter the error path because a post-handler interceptor failed.
    pub fn fail_interceptors_post(&mut self) -> (r: Result<NivasaRequestState, InvalidTransitionError>)
        ensures
            final(self).request_view() == old(self).request_view(),
            final(self).state() == match next_state(old(self).state(), NivasaRequestEvent::ErrorInterceptorPost) {
                Some(n) => n,
                None => old(self).state(),
            },
            r is Ok <==> next_state(old(self).state(), NivasaRequestEvent::ErrorInterceptorPost) is Some,
    {
        self.send_event(NivasaRequestEvent::ErrorInterceptorPost)
    }

    /// Mark error filters as having produced a response.
    pub fn handle_filter(&mut self) -> (r: Result<NivasaRequestState, InvalidTransitionError>)
        ensures
            final(self).request_view() == old(self).request_view(),
            final(self).state() == match next_state(old(self).state(), NivasaRequestEvent::FilterHandled) {
                Some(n) => n,
                None => old(self).state(),
            },
            r is Ok <==> next_state(old(self).state(), NivasaRequestEvent::FilterHandled) is Some,
    {
        self.send_event(NivasaRequestEvent::FilterHandled)
    }

    /// Leave error handling when no filter handled the failure.
    pub fn fail_filter_unhandled(&mut self) -> (r: Result<NivasaRequestState, InvalidTransitionError>)
        ensures
            final(self).request_view() == old(self).request_view(),
            final(self).state() == match next_state(old(self).state(), NivasaRequestEvent::ErrorFilterUnhandled) {
                Some(n) => n,
                None => old(self).state(),
            },
            r is Ok <==> next_state(old(self).state(), NivasaRequestEvent::ErrorFilterUnhandled) is Some,
    {
        self.send_event(NivasaRequestEvent::ErrorFilterUnhandled)
    }

    /// Mark response sending as complete.
    pub fn complete_response(&mut self) -> (r: Result<NivasaRequestState, InvalidTransitionError>)
        ensures
            final(self).request_view() == old(self).request_view(),
            final(self).state() == match next_state(old(self).state(), NivasaRequestEvent::ResponseSent) {
                Some(n) => n,
                None => old(self).state(),
            },
            r is Ok <==> next_state(old(self).state(), NivasaRequestEvent::ResponseSent) is Some,
    {
        self.send_event(NivasaRequestEvent::ResponseSent)
    }

    /// Leave through the send-error branch.
    pub fn fail_send(&mut self) -> (r: Result<NivasaRequestState, InvalidTransitionError>)
        ensures
            final(self).request_view() == old(self).request_view(),
            final(self).state() == match next_state(old(self).state(), NivasaRequestEvent::ErrorSend) {
                Some(n) => n,
                None => old(self).state(),
            },
            r is Ok <==> next_state(old(self).state(), NivasaRequestEvent::ErrorSend) is Some,
    {
        self.send_event(NivasaRequestEvent::ErrorSend)
    }
}


/// The states a run of events leads through from `state`, stopping at the
/// first refused event (`None` then).
pub open spec fn run_events(state: NivasaRequestState, events: Seq<NivasaRequestEvent>) -> Option<
    NivasaRequestState,
>
    decreases events.len(),
{
    if events.len() == 0 {
        Some(state)
    } else {
        match next_state(state, events[0]) {
            Some(next) => run_events(next, events.drop_first()),
            None => None,
        }
    }
}

/// The events of a request that succeeds at every stage.
pub open spec fn happy_path() -> Seq<NivasaRequestEvent> {
    seq![
        NivasaRequestEvent::RequestParsed,
        NivasaRequestEvent::MiddlewareComplete,
        NivasaRequestEvent::RouteMatched,
        NivasaRequestEvent::GuardsPassed,
        NivasaRequestEvent::InterceptorsPreComplete,
        NivasaRequestEvent::PipesComplete,
        NivasaRequestEvent::HandlerComplete,
        NivasaRequestEvent::InterceptorsPostComplete,
        NivasaRequestEvent::ResponseSent,
    ]
}

/// Whether `event` is one of the error events of the lifecycle.
pub open spec fn is_error_event(event: NivasaRequestEvent) -> bool {
    match event {
        NivasaRequestEvent::ErrorParse | NivasaRequestEvent::ErrorMiddleware
        | NivasaRequestEvent::RouteNotFound | NivasaRequestEvent::RouteMethodNotAllowed
        | NivasaRequestEvent::GuardDenied | NivasaRequestEvent::ErrorGuard
        | NivasaRequestEvent::ErrorInterceptor | NivasaRequestEvent::ErrorValidation
        | NivasaRequestEvent::ErrorPipe | NivasaRequestEvent::ErrorHandler
        | NivasaRequestEvent::ErrorInterceptorPost => true,
        _ => false,
    }
}

/// A request that succeeds at every stage goes from `Received` to `Done`.
pub proof fn lemma_happy_path_reaches_done()
    ensures
        run_events(NivasaRequestState::Received, happy_path()) == Some(NivasaRequestState::Done),
{
    reveal_with_fuel(run_events, 10);
    let p = happy_path();
    assert(p.drop_first() =~= seq![
        NivasaRequestEvent::MiddlewareComplete,
        NivasaRequestEvent::RouteMatched,
        NivasaRequestEvent::GuardsPassed,
        NivasaRequestEvent::InterceptorsPreComplete,
        NivasaRequestEvent::PipesComplete,
        NivasaRequestEvent::HandlerComplete,
        NivasaRequestEvent::InterceptorsPostComplete,
        NivasaRequestEvent::ResponseSent,
    ]);
    assert(p.drop_first().drop_first() =~= p.subrange(2, 9));
    assert(p.subrange(2, 9).drop_first() =~= p.subrange(3, 9));
    assert(p.subrange(3, 9).drop_first() =~= p.subrange(4, 9));
    assert(p.subrange(4, 9).drop_first() =~= p.subrange(5, 9));
    assert(p.subrange(5, 9).drop_first() =~= p.subrange(6, 9));
    assert(p.subrange(6, 9).drop_first() =~= p.subrange(7, 9));
    assert(p.subrange(7, 9).drop_first() =~= p.subrange(8, 9));
    assert(p.subrange(8, 9).drop_first() =~= Seq::<NivasaRequestEvent>::empty());
}

/// `Done` is final: no event is accepted there.
pub proof fn lemma_done_is_final(event: NivasaRequestEvent)
    ensures
        next_state(NivasaRequestState::Done, event) is None,
{
}

/// Every error event that a state accepts leads into `ErrorHandling`, and
/// error handling always ends in a response: whether a filter handled the
/// failure or not, the next state is `SendingResponse`, from which both
/// outcomes of sending lead to `Done`.
pub proof fn lemma_errors_end_in_a_response(state: NivasaRequestState, event: NivasaRequestEvent)
    requires
        is_error_event(event),
        next_state(state, event) is Some,
    ensures
        next_state(state, event) == Some(NivasaRequestState::ErrorHandling),
        next_state(NivasaRequestState::ErrorHandling, NivasaRequestEvent::FilterHandled) == Some(
            NivasaRequestState::SendingResponse,
        ),
        next_state(NivasaRequestState::ErrorHandling, NivasaRequestEvent::ErrorFilterUnhandled)
            == Some(NivasaRequestState::SendingResponse),
        next_state(NivasaRequestState::SendingResponse, NivasaRequestEvent::ResponseSent) == Some(
            NivasaRequestState::Done,
        ),
        next_state(NivasaRequestState::SendingResponse, NivasaRequestEvent::ErrorSend) == Some(
            NivasaRequestState::Done,
        ),
{
}

/// Every stage before the response can divert into error handling.
pub proof fn lemma_every_stage_can_fail(state: NivasaRequestState)
    requires
        state != NivasaRequestState::ErrorHandling,
        state != NivasaRequestState::SendingResponse,
        state != NivasaRequestState::Done,
    ensures
        exists|event: NivasaRequestEvent|
            is_error_event(event) && #[trigger] next_state(state, event) == Some(
                NivasaRequestState::ErrorHandling,
            ),
{
    let event = match state {
        NivasaRequestState::Received => NivasaRequestEvent::ErrorParse,
        NivasaRequestState::MiddlewareChain => NivasaRequestEvent::ErrorMiddleware,
        NivasaRequestState::RouteMatching => NivasaRequestEvent::RouteNotFound,
        NivasaRequestState::GuardChain => NivasaRequestEvent::GuardDenied,
        NivasaRequestState::InterceptorPre => NivasaRequestEvent::ErrorInterceptor,
        NivasaRequestState::PipeTransform => NivasaRequestEvent::ErrorPipe,
        NivasaRequestState::HandlerExecution => NivasaRequestEvent::ErrorHandler,
        _ => NivasaRequestEvent::ErrorInterceptorPost,
    };
    assert(is_error_event(event) && next_state(state, event) == Some(NivasaRequestState::ErrorHandling));
}

/// A guard chain run over `guards` passes exactly when every guard allows
/// the request; otherwise it stopped at the first guard that does not, all
/// the guards before it allowed, and that guard's answer decides.
pub proof fn lemma_chain_passes_iff_every_guard_allows(
    verdicts: Seq<GuardVerdict>,
    guards: Seq<&dyn Guard>,
    context: ExecutionContext,
)
    requires
        chain_ran(verdicts, guards.len() as int),
        verdicts_answer(verdicts, guards, context),
    ensures
        (first_refusal(verdicts) is None) <==> (forall|i: int|
            0 <= i < guards.len() ==> #[trigger] guards[i].activation(context) == Ok::<bool, HttpException>(true)),
        first_refusal(verdicts) matches Some(k) ==> {
            &&& k == verdicts.len() - 1
            &&& verdicts[k] == verdict_of(guards[k].activation(context))
            &&& guards[k].activation(context) != Ok::<bool, HttpException>(true)
            &&& forall|j: int| 0 <= j < k ==> #[trigger] guards[j].activation(context) == Ok::<bool, HttpException>(true)
        },
{
    lemma_guard_chain_all_allow(verdicts);
    assert forall|i: int| 0 <= i < verdicts.len() implies (#[trigger] verdicts[i] is Allow) == (guards[i].activation(
        context,
    ) == Ok::<bool, HttpException>(true)) by {
        assert(verdicts[i] == verdict_of(guards[i].activation(context)));
    }
    if first_refusal(verdicts) is None {
        assert(verdicts.len() == guards.len()) by {
            if verdicts.len() < guards.len() {
                assert(!(verdicts[verdicts.len() - 1] is Allow));
            }
        }
        assert forall|i: int| 0 <= i < guards.len() implies #[trigger] guards[i].activation(context) == Ok::<
            bool,
            HttpException,
        >(true) by {
            assert(verdicts[i] is Allow);
        }
    } else {
        let k = first_refusal(verdicts)->0;
        assert(k == verdicts.len() - 1) by {
            if k < verdicts.len() - 1 {
                assert(verdicts[k] is Allow);
            }
        }
        assert(guards[k].activation(context) != Ok::<bool, HttpException>(true));
        assert forall|j: int| 0 <= j < k implies #[trigger] guards[j].activation(context) == Ok::<
            bool,
            HttpException,
        >(true) by {
            assert(verdicts[j] is Allow);
        }
    }
}

/// A guard chain passes exactly when every guard allows, and otherwise the
/// first refusing guard decides the event.
pub proof fn lemma_guard_chain_all_allow(verdicts: Seq<GuardVerdict>)
    ensures
        (guard_chain_event(verdicts) == NivasaRequestEvent::GuardsPassed) <==> (forall|i: int|
            0 <= i < verdicts.len() ==> #[trigger] verdicts[i] is Allow),
        (first_refusal(verdicts) is None) <==> (forall|i: int|
            0 <= i < verdicts.len() ==> #[trigger] verdicts[i] is Allow),
        first_refusal(verdicts) matches Some(k) ==> 0 <= k < verdicts.len() && !(verdicts[k] is Allow)
            && (forall|j: int| 0 <= j < k ==> #[trigger] verdicts[j] is Allow),
    decreases verdicts.len(),
{
    if verdicts.len() > 0 {
        let rest = verdicts.drop_first();
        lemma_guard_chain_all_allow(rest);
        assert forall|i: int| 0 < i < verdicts.len() implies #[trigger] verdicts[i] == rest[i - 1] by {}
        if verdicts[0] is Allow {
            if forall|i: int| 0 <= i < rest.len() ==> #[trigger] rest[i] is Allow {
                assert forall|i: int| 0 <= i < verdicts.len() implies #[trigger] verdicts[i] is Allow by {
                    if i > 0 {
                        assert(rest[i - 1] is Allow);
                    }
                }
            } else {
                let j = choose|j: int| 0 <= j < rest.len() && !(#[trigger] rest[j] is Allow);
                assert(!(verdicts[j + 1] is Allow));
            }
            match first_refusal(rest) {
                Some(k) => {
                    assert forall|j: int| 0 <= j < k + 1 implies #[trigger] verdicts[j] is Allow by {
                        if j > 0 {
                            assert(rest[j - 1] is Allow);
                        }
                    }
                },
                None => {},
            }
        }
    }
}

} // verus!
