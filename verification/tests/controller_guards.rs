use nivasa_http::{resolve_controller_guard_execution, ClientIp};

#[test]
fn resolves_controller_and_handler_guards_into_one_contract() {
    let contract = resolve_controller_guard_execution(
        "list",
        &["ControllerGuard"],
        &[("list", vec!["AuthGuard", "AuditGuard"])],
    );

    let contract = contract.expect("a contract");
    assert_eq!(contract.handler(), "list");
    assert_eq!(contract.guards(), &["ControllerGuard", "AuthGuard", "AuditGuard"]);
}

#[test]
fn resolves_controller_only_guards_for_handlers_without_specific_metadata() {
    let contract =
        resolve_controller_guard_execution("show", &["ControllerGuard"], &[("list", vec![])]);

    let contract = contract.expect("a contract");
    assert_eq!(contract.handler(), "show");
    assert_eq!(contract.guards(), &["ControllerGuard"]);
}

#[test]
fn returns_none_when_no_controller_or_handler_guards_exist() {
    let contract = resolve_controller_guard_execution("show", &[], &[]);

    assert!(contract.is_none());
}

#[test]
fn handler_only_guards_form_a_contract() {
    let contract = resolve_controller_guard_execution("list", &[], &[("list", vec!["AuthGuard"])])
        .expect("a contract");
    assert_eq!(contract.guards(), &["AuthGuard"]);
}

#[test]
fn client_ip_round_trips_its_text() {
    let ip = ClientIp::new("10.0.0.1");
    assert_eq!(ip.as_str(), "10.0.0.1");
    assert_eq!(ip.into_string(), "10.0.0.1".to_string());
}
