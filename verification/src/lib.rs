//! HTTP primitives for Nivasa: request and response wrappers, the request
//! lifecycle, guards, CORS, middleware decisions, exception filters,
//! multipart uploads, logging levels, server-sent events, GraphQL envelopes
//! and health aggregation, each with its contract.
use vstd::prelude::*;

pub mod text;
pub mod assoc;
pub mod upload;
pub mod headers;
pub mod body;
pub mod request;
pub mod controller;
pub mod exception;
pub mod pipeline;
pub mod response;
pub mod guards;
pub mod throttling;
pub mod logging;
pub mod cors;
pub mod dispatch;
pub mod middleware;
pub mod health;
pub mod graphql;
pub mod debug;
pub mod actions;

verus! {
} // verus!

pub use body::{Body, Html, Text};
pub use controller::{resolve_controller_guard_execution, ClientIp, ControllerGuardExecutionContract};
pub use cors::CorsOptions;
pub use debug::DebugEndpointResponse;
pub use exception::HttpException;
pub use graphql::{graphql_playground_html, GraphQLError, GraphQLModule, GraphQLRequest, GraphQLResponse};
pub use guards::{AuthGuard, ContextValue, ExecutionContext, Guard, RequestContext, RequestValue, RolesGuard, ThrottlerGuard};
pub use headers::{HeaderMap, HeaderValue};
pub use health::{HealthCheckResult, HealthIndicatorResult, HealthStatus};
pub use logging::{LogContext, LoggerFormat, LoggerInitError, LoggerModule, LoggerOptions, LoggerOptionsProvider, LoggerService};
pub use middleware::{CompressionMiddleware, HelmetMiddleware, LoggerMiddleware, NivasaMiddlewareLayer, RequestIdMiddleware};
pub use pipeline::{GuardExecutionOutcome, RequestPipeline};
pub use request::{FromRequest, Json, NivasaRequest, Query, RequestExtractError, RoutePathCaptures};
pub use actions::{
    run_controller_action, run_controller_action_with_body, run_controller_action_with_custom_param,
    run_controller_action_with_file, run_controller_action_with_files, run_controller_action_with_headers,
    run_controller_action_with_ip, run_controller_action_with_request, ControllerParamExtractor,
};
pub use response::{ControllerResponse, Download, HttpExceptionFilter, IntoResponse, NivasaResponse, NivasaResponseBuilder, Redirect, Sse, SseEvent, StreamBody};
pub use throttling::{ThrottlerModule, ThrottlerOptions, ThrottlerOptionsProvider};
pub use upload::{FileInterceptor, FilesInterceptor, MultipartLimits, UploadInterceptError, UploadedFile};
