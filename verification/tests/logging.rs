use nivasa_http::logging::{level_rank, logger_export_types, logger_provider_types};
use nivasa_http::{LogContext, LoggerFormat, LoggerModule, LoggerOptions, LoggerService};

#[test]
fn logger_service_rejects_invalid_directives() {
    let service = LoggerService::new(LoggerOptions::new().with_module_level("payments", "definitely-not-a-level"));

    let error = service.env_filter().expect_err("invalid directive should fail");
    assert!(error.message().contains("payments=definitely-not-a-level"));
}

#[test]
fn logger_service_rejects_invalid_default_directive() {
    let service = LoggerService::new(LoggerOptions::new().with_default_level("target["));

    let error = service.env_filter().expect_err("invalid default directive should fail");

    assert_eq!(error.message(), "invalid tracing directive: target[");
}

#[test]
fn logger_service_drops_info_when_default_level_is_error() {
    let service = LoggerService::new(LoggerOptions::new().with_default_level("error"));
    assert!(service.info(&LogContext::new(), "should not log").is_none());
}

#[test]
fn logger_service_exposes_options_and_builds_env_filter() {
    let service = LoggerService::new(LoggerOptions::new().with_json().with_global(true).with_default_level("debug"));
    let options = service.options();

    assert!(options.is_global);
    assert!(matches!(options.format, LoggerFormat::Json));
    assert!(service.env_filter().is_ok());
    assert_eq!(service.subscriber_format(), Ok(LoggerFormat::Json));
}

#[test]
fn logger_module_markers_are_buildable() {
    let module = LoggerModule::new();
    let root = LoggerModule::for_root(LoggerOptions::new());
    let feature = LoggerModule::for_feature(LoggerOptions::new().with_global(true));

    assert_eq!(format!("{module:?}"), "LoggerModule");
    assert!(!root.metadata.is_global);
    assert!(feature.metadata.is_global);
    assert_eq!(root.metadata.exports.len(), 1);
    assert_eq!(root.providers.len(), 2);
    assert_eq!(logger_provider_types().len(), 2);
    assert_eq!(logger_export_types().len(), 1);
    assert!(root.providers.contains(&std::any::TypeId::of::<LoggerService>()));
}

#[test]
fn module_levels_override_the_default_level() {
    let service = LoggerService::new(
        LoggerOptions::new().with_default_level("warn").with_module_level("payments", "info"),
    );
    let record = service
        .info_with_target("payments", &LogContext::new().with_request_id("req-1"), "paid")
        .expect("payments logs at info");
    assert_eq!(record.request_id, "req-1");
    assert_eq!(record.user_id, "");
    assert_eq!(record.module_name, "payments");
    assert_eq!(record.message, "paid");
    assert!(service.info_with_target("orders", &LogContext::new(), "dropped").is_none());
}

#[test]
fn records_carry_the_context_fields() {
    let service = LoggerService::new(LoggerOptions::new());
    let context = LogContext::new().with_request_id("req-1").with_user_id("user-7").with_module_name("users");
    let record = service.info(&context, "hello").expect("info passes the default level");
    assert_eq!(record.request_id, "req-1");
    assert_eq!(record.user_id, "user-7");
    assert_eq!(record.module_name, "users");
    assert_eq!(record.target, "nivasa_http::logging");
}

#[test]
fn level_ranks_follow_severity() {
    assert_eq!(level_rank("trace"), 0);
    assert_eq!(level_rank(" DEBUG "), 1);
    assert_eq!(level_rank("info"), 2);
    assert_eq!(level_rank("Warn"), 3);
    assert_eq!(level_rank("error"), 4);
    assert_eq!(level_rank("verbose"), usize::MAX);
}

#[test]
fn module_levels_stay_sorted_and_replace_earlier_levels() {
    let options = LoggerOptions::new()
        .with_module_level("zeta", "warn")
        .with_module_level("alpha", "info")
        .with_module_level("zeta", "error");
    let keys: Vec<&str> = options.module_levels.iter().map(|(k, _)| k.as_str()).collect();
    assert_eq!(keys, vec!["alpha", "zeta"]);
    assert_eq!(options.module_levels[1].1, "error");
}

#[test]
fn options_defaults() {
    let new = LoggerOptions::new();
    assert_eq!(new.default_level, "info");
    assert!(matches!(new.format, LoggerFormat::Pretty));
    let default = LoggerOptions::default();
    assert_eq!(default.default_level, "");
    assert_eq!(LoggerService::default().options(), &default);
}
