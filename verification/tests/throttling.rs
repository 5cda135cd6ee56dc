use nivasa_http::throttling::{throttler_export_types, throttler_provider_types};
use nivasa_http::{ThrottlerModule, ThrottlerOptions, ThrottlerOptionsProvider};
use std::time::Duration;

#[test]
fn throttler_options_new_sets_defaults() {
    let opts = ThrottlerOptions::new(5, Duration::from_secs(30));
    assert_eq!(opts.limit, 5);
    assert_eq!(opts.ttl, Duration::from_secs(30));
    assert!(!opts.is_global);
}

#[test]
fn throttler_options_with_global_toggles_flag() {
    let opts = ThrottlerOptions::new(10, Duration::from_secs(60)).with_global(true);
    assert!(opts.is_global);

    let opts2 = opts.with_global(false);
    assert!(!opts2.is_global);
}

#[test]
fn throttler_options_default_is_10_per_60s() {
    let opts = ThrottlerOptions::default();
    assert_eq!(opts.limit, 10);
    assert_eq!(opts.ttl, Duration::from_secs(60));
    assert!(!opts.is_global);
}

#[test]
fn throttler_options_provider_default_is_debug_and_clone() {
    let provider = ThrottlerOptionsProvider::default();
    let _ = format!("{provider:?}");
    let _cloned = provider;
}

#[test]
fn throttler_module_new_creates_marker() {
    let _m = ThrottlerModule::new();
    let _default = ThrottlerModule::default();
    let _ = format!("{:?}", ThrottlerModule);
}

#[test]
fn throttler_module_for_root_produces_global_module() {
    let opts = ThrottlerOptions::new(5, Duration::from_secs(10)).with_global(true);
    let module = ThrottlerModule::for_root(opts);
    assert!(module.metadata.is_global);
}

#[test]
fn throttler_module_for_root_non_global() {
    let opts = ThrottlerOptions::new(5, Duration::from_secs(10));
    let module = ThrottlerModule::for_root(opts);
    assert!(!module.metadata.is_global);
}

#[test]
fn throttler_module_for_feature_via_configurable_module() {
    let opts = ThrottlerOptions::new(3, Duration::from_secs(5)).with_global(false);
    let module = ThrottlerModule::for_feature(opts);
    assert!(!module.metadata.is_global);
}

#[test]
fn throttler_module_for_root_via_configurable_module() {
    let opts = ThrottlerOptions::new(3, Duration::from_secs(5)).with_global(true);
    let module = ThrottlerModule::for_root(opts);
    assert!(module.metadata.is_global);
}

#[test]
fn throttler_provider_types_contains_three_entries() {
    assert_eq!(throttler_provider_types().len(), 3);
}

#[test]
fn throttler_export_types_contains_two_entries() {
    assert_eq!(throttler_export_types().len(), 2);
}

#[test]
fn throttler_module_exports_storage_and_guard() {
    let module = ThrottlerModule::for_root(ThrottlerOptions::default());
    assert_eq!(module.metadata.exports.len(), 2);
    assert_eq!(module.providers.len(), 3);
    assert!(module
        .providers
        .contains(&std::any::TypeId::of::<nivasa_http::ThrottlerGuard>()));
}
