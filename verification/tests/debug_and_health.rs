use nivasa_http::debug::{handle_statechart_debug_request, STATECHART_PATH, STATECHART_SCXML_PATH, STATECHART_TRANSITIONS_PATH};
use nivasa_http::health::aggregate_health;
use nivasa_http::{HealthIndicatorResult, HealthStatus};

#[test]
fn snapshot_endpoint_returns_json() {
    let response = handle_statechart_debug_request(STATECHART_PATH, "{\n  \"current_state\": \"Running\"\n}", Some("<scxml/>"), "[]")
        .expect("snapshot endpoint must exist");
    assert_eq!(response.status, 200);
    assert_eq!(response.content_type, "application/json");
    assert!(response.body.contains("\"current_state\": \"Running\""));
}

#[test]
fn scxml_endpoint_returns_raw_document() {
    let response = handle_statechart_debug_request(STATECHART_SCXML_PATH, "{}", Some("<scxml/>"), "[]")
        .expect("scxml endpoint must exist");
    assert_eq!(response.content_type, "application/xml");
    assert_eq!(response.body, "<scxml/>");
    let empty = handle_statechart_debug_request(STATECHART_SCXML_PATH, "{}", None, "[]").unwrap();
    assert_eq!(empty.body, "");
}

#[test]
fn transitions_endpoint_returns_json() {
    let response = handle_statechart_debug_request(STATECHART_TRANSITIONS_PATH, "{}", None, "[\n  {\n    \"event\": \"Start\"\n  }\n]")
        .expect("transitions endpoint must exist");
    assert_eq!(response.content_type, "application/json");
    assert!(response.body.contains("\"event\": \"Start\""));
}

#[test]
fn other_paths_are_not_debug_endpoints() {
    assert!(handle_statechart_debug_request("/users", "{}", None, "[]").is_none());
}

#[test]
fn health_check_service_aggregates_status_and_details() {
    let all_up = aggregate_health(vec![HealthIndicatorResult::up(), HealthIndicatorResult::up().with_details("{\"db\":\"ok\"}")]);
    assert_eq!(all_up.status, HealthStatus::Up);
    assert_eq!(all_up.details.len(), 2);
    assert_eq!(all_up.details[1].details.as_deref(), Some("{\"db\":\"ok\"}"));

    let one_down = aggregate_health(vec![HealthIndicatorResult::up(), HealthIndicatorResult::down()]);
    assert_eq!(one_down.status, HealthStatus::Down);

    assert_eq!(aggregate_health(Vec::new()).status, HealthStatus::Up);
}
