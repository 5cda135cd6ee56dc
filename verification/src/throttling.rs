//! Bootstrap-facing throttling options and the throttling module surface.
use vstd::prelude::*;
use crate::guards::{duration_extra_nanos, duration_whole_secs, ThrottlerGuard};

verus! {

#[verifier::external_type_specification]
#[verifier::external_body]
pub struct ExTypeId(core::any::TypeId);

/// `TypeId::of`.
#[verifier::external_body]
pub(crate) fn type_id_of<T: ?Sized + 'static>() -> (r: core::any::TypeId) {
    core::any::TypeId::of::<T>()
}

/// `Duration::from_secs`: a duration of whole seconds, which reads back
/// those seconds and no extra nanoseconds.
#[verifier::external_body]
fn duration_from_secs(secs: u64) -> (r: core::time::Duration)
    ensures
        duration_whole_secs(r) == secs,
        duration_extra_nanos(r) == 0,
{
    core::time::Duration::from_secs(secs)
}

/// Bootstrap-facing options for rate limiting.
#[derive(Debug, Clone, Copy, PartialEq, Eq)]
pub struct ThrottlerOptions {
    pub is_global: bool,
    pub limit: u32,
    pub ttl: core::time::Duration,
}

impl ThrottlerOptions {
    /// Options for `limit` requests per window of `ttl`, not global.
    pub fn new(limit: u32, ttl: core::time::Duration) -> (r: Self)
        ensures
            r.limit == limit,
            r.ttl == ttl,
            !r.is_global,
    {
        ThrottlerOptions { is_global: false, limit, ttl }
    }

    /// The options with throttling marked global or not.
    pub fn with_global(self, is_global: bool) -> (r: Self)
        ensures
            r.is_global == is_global,
            r.limit == self.limit,
            r.ttl == self.ttl,
    {
        ThrottlerOptions { is_global, ..self }
    }
}

impl Default for ThrottlerOptions {
    /// Ten requests per sixty seconds, not global.
    fn default() -> (r: Self)
        ensures
            r.limit == 10,
            duration_whole_secs(r.ttl) == 60,
            duration_extra_nanos(r.ttl) == 0,
            !r.is_global,
    {
        ThrottlerOptions::new(10, duration_from_secs(60))
    }
}

/// Marker type for bootstrap-time throttling options metadata.
#[derive(Debug, Clone, Copy, Default, PartialEq, Eq, Hash)]
pub struct ThrottlerOptionsProvider;

/// Marker type for the in-memory throttling storage provider.
#[derive(Debug, Clone, Copy, Default, PartialEq, Eq, Hash)]
pub struct InMemoryThrottlerStorage;

/// Module metadata: the exported provider types and whether the module is global.
#[derive(Debug, Clone)]
pub struct ModuleMetadata {
    pub exports: Vec<core::any::TypeId>,
    pub is_global: bool,
}

/// A module assembled at bootstrap: its metadata and its providers.
#[derive(Debug, Clone)]
pub struct DynamicModule {
    pub metadata: ModuleMetadata,
    pub providers: Vec<core::any::TypeId>,
}

/// The providers the throttling module registers: the options provider, the
/// in-memory storage and the guard.
pub fn throttler_provider_types() -> (r: Vec<core::any::TypeId>)
    ensures
        r@.len() == 3,
{
    let mut v: Vec<core::any::TypeId> = Vec::new();
    v.push(type_id_of::<ThrottlerOptionsProvider>());
    v.push(type_id_of::<InMemoryThrottlerStorage>());
    v.push(type_id_of::<ThrottlerGuard>());
    v
}

/// The providers the throttling module exports: the storage and the guard.
pub fn throttler_export_types() -> (r: Vec<core::any::TypeId>)
    ensures
        r@.len() == 2,
{
    let mut v: Vec<core::any::TypeId> = Vec::new();
    v.push(type_id_of::<InMemoryThrottlerStorage>());
    v.push(type_id_of::<ThrottlerGuard>());
    v
}

/// Dynamic module marker for request throttling.
#[derive(Debug, Clone, Copy, Default, PartialEq, Eq, Hash)]
pub struct ThrottlerModule;

impl ThrottlerModule {
    pub fn new() -> (r: Self) {
        ThrottlerModule
    }

    /// The root throttling module: the storage and guard exported, the three
    /// providers registered, global as the options say.
    pub fn for_root(options: ThrottlerOptions) -> (r: DynamicModule)
        ensures
            r.metadata.is_global == options.is_global,
            r.metadata.exports@.len() == 2,
            r.providers@.len() == 3,
    {
        DynamicModule {
            metadata: ModuleMetadata { exports: throttler_export_types(), is_global: options.is_global },
            providers: throttler_provider_types(),
        }
    }

    /// A feature throttling module, assembled as the root one.
    pub fn for_feature(options: ThrottlerOptions) -> (r: DynamicModule)
        ensures
            r.metadata.is_global == options.is_global,
            r.metadata.exports@.len() == 2,
            r.providers@.len() == 3,
    {
        ThrottlerModule::for_root(options)
    }
}

} // verus!
