use nivasa_http::{
    AuthGuard, Body, ContextValue, ExecutionContext, Guard, NivasaRequest, RequestContext, RequestValue,
    RolesGuard, ThrottlerGuard,
};
use std::time::Duration;

fn strs(items: &[&str]) -> ContextValue {
    ContextValue::List(items.iter().map(|s| s.to_string()).collect())
}

fn json_strs(items: &[&str]) -> RequestValue {
    RequestValue::Array(items.iter().map(|s| Some(s.to_string())).collect())
}

#[test]
fn execution_context_exposes_typed_request_and_metadata() {
    let context = ExecutionContext::new(NivasaRequest::new("GET", "/admin", Body::empty()))
        .with_handler_metadata("roles", strs(&["admin", "editor"]))
        .with_class_metadata("controller", ContextValue::Text("users".to_string()))
        .with_custom_data("tenant", ContextValue::Text("acme".to_string()));

    assert_eq!(context.request().map(|r| r.path()), Some("/admin"));
    assert_eq!(context.handler_metadata("roles"), Some(&strs(&["admin", "editor"])));
    assert_eq!(context.class_metadata("controller"), Some(&ContextValue::Text("users".to_string())));
    assert_eq!(context.custom_data("tenant"), Some(&ContextValue::Text("acme".to_string())));
}

#[test]
fn execution_context_can_attach_shared_request_context() {
    let mut request_context = RequestContext::new();
    request_context.set_handler_metadata("roles", json_strs(&["admin"]));

    let context = ExecutionContext::empty().with_request_context(request_context);

    assert!(context.request_context().is_some());
    assert!(context.request().is_none());
}

#[test]
fn auth_guard_accepts_jwt_shaped_bearer_tokens() {
    let mut request_context = RequestContext::new();
    request_context.set_custom_data(
        "authorization",
        RequestValue::Str("Bearer header.payload.signature".to_string()),
    );

    let context = ExecutionContext::empty().with_request_context(request_context);
    let guard = AuthGuard::new();

    assert!(guard.can_activate(&context).unwrap());
}

#[test]
fn auth_guard_rejects_missing_or_malformed_bearer_tokens() {
    let mut missing_context = RequestContext::new();
    missing_context.set_custom_data("authorization", RequestValue::Str("token-without-bearer-prefix".to_string()));

    let missing = ExecutionContext::empty().with_request_context(missing_context);
    let guard = AuthGuard::new();

    assert!(!guard.can_activate(&missing).unwrap());

    let mut malformed_context = RequestContext::new();
    malformed_context.set_custom_data("authorization", RequestValue::Str("Bearer not.jwt-shaped".to_string()));

    let malformed = ExecutionContext::empty().with_request_context(malformed_context);

    assert!(!guard.can_activate(&malformed).unwrap());
}

#[test]
fn auth_guard_falls_back_to_context_custom_data() {
    let guard = AuthGuard::new();

    let string_context = ExecutionContext::empty().with_custom_data(
        "authorization",
        ContextValue::Text(String::from("Bearer header.payload.signature")),
    );
    assert!(guard.can_activate(&string_context).unwrap());
}

#[test]
fn jwt_shape_checks_segments_and_prefix() {
    assert!(AuthGuard::looks_like_jwt_bearer("  Bearer a.b.c  "));
    assert!(!AuthGuard::looks_like_jwt_bearer("Bearer a.b"));
    assert!(!AuthGuard::looks_like_jwt_bearer("Bearer a.b.c.d"));
    assert!(!AuthGuard::looks_like_jwt_bearer("Bearer a. .c"));
    assert!(!AuthGuard::looks_like_jwt_bearer("bearer a.b.c"));
    assert!(!AuthGuard::looks_like_jwt_bearer(""));
}

#[test]
fn auth_guard_denies_without_any_token() {
    assert!(!AuthGuard::new().can_activate(&ExecutionContext::empty()).unwrap());
}

#[test]
fn throttler_guard_exposes_rate_limit_configuration_without_storage_backends() {
    let guard = ThrottlerGuard::new(10, Duration::from_secs(60));

    assert_eq!(guard.limit(), 10);
    assert_eq!(guard.ttl(), Duration::from_secs(60));
    assert!(guard.can_activate(&ExecutionContext::empty()).unwrap());
}

#[test]
fn throttler_guard_rejects_unconfigured_windows() {
    let zero_limit = ThrottlerGuard::new(0, Duration::from_secs(60));
    let zero_ttl = ThrottlerGuard::new(10, Duration::from_secs(0));
    let context = ExecutionContext::empty();

    assert!(!zero_limit.can_activate(&context).unwrap());
    assert!(!zero_ttl.can_activate(&context).unwrap());
}

#[test]
fn throttler_guard_keeps_sub_second_windows() {
    let guard = ThrottlerGuard::new(1, Duration::from_millis(250));
    assert_eq!(guard.ttl_secs(), 0);
    assert_eq!(guard.ttl_subsec_nanos(), 250_000_000);
    assert!(guard.can_activate(&ExecutionContext::empty()).unwrap());
}

#[test]
fn roles_guard_matches_roles_from_context_metadata() {
    let mut request_context = RequestContext::new();
    request_context.set_handler_metadata("roles", json_strs(&["editor"]));
    request_context.set_custom_data("roles", json_strs(&["editor"]));

    let context = ExecutionContext::empty()
        .with_request_context(request_context)
        .with_class_metadata("roles", strs(&["admin"]));

    assert!(RolesGuard::new().can_activate(&context).unwrap());
}

#[test]
fn roles_guard_denies_when_roles_do_not_overlap() {
    let mut request_context = RequestContext::new();
    request_context.set_class_metadata("roles", json_strs(&["admin"]));
    request_context.set_custom_data("roles", json_strs(&["guest"]));

    let context = ExecutionContext::empty().with_request_context(request_context);

    assert!(!RolesGuard::new().can_activate(&context).unwrap());
}

#[test]
fn roles_guard_allows_without_required_roles_and_uses_context_level_metadata() {
    let guard = RolesGuard::new();

    let empty_context = ExecutionContext::empty();
    assert!(guard.can_activate(&empty_context).unwrap());

    let context = ExecutionContext::empty()
        .with_class_metadata("roles", strs(&["admin"]))
        .with_custom_data("roles", strs(&["admin"]));
    assert!(guard.can_activate(&context).unwrap());
}

#[test]
fn roles_guard_allows_when_required_roles_are_unreadable() {
    let mut request_context = RequestContext::new();
    request_context.set_handler_metadata("roles", RequestValue::Array(vec![Some("admin".to_string()), None]));
    let context = ExecutionContext::empty()
        .with_request_context(request_context)
        .with_custom_data("roles", strs(&["admin"]));
    // unreadable required roles count as none declared
    assert!(RolesGuard::new().can_activate(&context).unwrap());
    assert_eq!(RolesGuard::required_roles(&context), None);
}

#[test]
fn roles_guard_denies_a_principal_without_roles() {
    let context = ExecutionContext::empty().with_handler_metadata("roles", strs(&["admin"]));
    assert!(!RolesGuard::new().can_activate(&context).unwrap());
}

#[test]
fn roles_match_needs_one_shared_role() {
    let required = vec!["a".to_string(), "b".to_string()];
    assert!(RolesGuard::roles_match(&required, &["x".to_string(), "b".to_string()]));
    assert!(!RolesGuard::roles_match(&required, &["x".to_string()]));
    assert!(!RolesGuard::roles_match(&[], &["x".to_string()]));
}
