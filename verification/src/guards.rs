//! Guards: the execution context they read, and the built-in authentication,
//! throttling and roles guards.
//!
//! The context carries string-keyed metadata and custom data, and optionally
//! the shared request context of the HTTP layer, whose values are JSON values.
//! A guard answers `Ok(true)` to let the request through, `Ok(false)` to deny
//! it, or an error.
use vstd::prelude::*;
use crate::assoc::{assoc_get, assoc_insert, assoc_lookup};
use crate::exception::HttpException;
use crate::request::NivasaRequest;
use crate::text::{chars_of, chars_starts_with, copy_range, split, split_chars, starts_with, trim, trim_chars, views};

verus! {

/// A value of the shared request context, as far as guards read it: a JSON
/// string, a JSON array (each element's text when it is a string, `None`
/// otherwise), or any other JSON value.
#[derive(Debug, Clone, PartialEq, Eq)]
pub enum RequestValue {
    Str(String),
    Array(Vec<Option<String>>),
    Other,
}

/// The shared request context attached by the HTTP layer: custom data and
/// route metadata, keyed by name.
#[derive(Debug, Clone)]
pub struct RequestContext {
    custom_data: Vec<(String, RequestValue)>,
    handler_metadata: Vec<(String, RequestValue)>,
    class_metadata: Vec<(String, RequestValue)>,
}

impl RequestContext {
    pub closed spec fn custom(&self, key: Seq<char>) -> Option<RequestValue> {
        assoc_get(self.custom_data@, key)
    }

    pub closed spec fn handler(&self, key: Seq<char>) -> Option<RequestValue> {
        assoc_get(self.handler_metadata@, key)
    }

    pub closed spec fn class(&self, key: Seq<char>) -> Option<RequestValue> {
        assoc_get(self.class_metadata@, key)
    }

    /// An empty context.
    pub fn new() -> (r: Self)
        ensures
            forall|k: Seq<char>| #[trigger] r.custom(k) is None,
            forall|k: Seq<char>| #[trigger] r.handler(k) is None,
            forall|k: Seq<char>| #[trigger] r.class(k) is None,
    {
        RequestContext { custom_data: Vec::new(), handler_metadata: Vec::new(), class_metadata: Vec::new() }
    }

    /// Store custom data under `key`, replacing an earlier value.
    pub fn set_custom_data(&mut self, key: &str, value: RequestValue)
        ensures
            forall|k: Seq<char>|
                #[trigger] final(self).custom(k) == if k == key@ {
                    Some(value)
                } else {
                    old(self).custom(k)
                },
            forall|k: Seq<char>| #[trigger] final(self).handler(k) == old(self).handler(k),
            forall|k: Seq<char>| #[trigger] final(self).class(k) == old(self).class(k),
    {
        assoc_insert(&mut self.custom_data, key.to_owned(), value);
    }

    /// Store handler metadata under `key`, replacing an earlier value.
    pub fn set_handler_metadata(&mut self, key: &str, value: RequestValue)
        ensures
            forall|k: Seq<char>|
                #[trigger] final(self).handler(k) == if k == key@ {
                    Some(value)
                } else {
                    old(self).handler(k)
                },
            forall|k: Seq<char>| #[trigger] final(self).custom(k) == old(self).custom(k),
            forall|k: Seq<char>| #[trigger] final(self).class(k) == old(self).class(k),
    {
        assoc_insert(&mut self.handler_metadata, key.to_owned(), value);
    }

    /// Store class metadata under `key`, replacing an earlier value.
    pub fn set_class_metadata(&mut self, key: &str, value: RequestValue)
        ensures
            forall|k: Seq<char>|
                #[trigger] final(self).class(k) == if k == key@ {
                    Some(value)
                } else {
                    old(self).class(k)
                },
            forall|k: Seq<char>| #[trigger] final(self).custom(k) == old(self).custom(k),
            forall|k: Seq<char>| #[trigger] final(self).handler(k) == old(self).handler(k),
    {
        assoc_insert(&mut self.class_metadata, key.to_owned(), value);
    }

    pub fn custom_data(&self, key: &str) -> (r: Option<&RequestValue>)
        ensures
            match r {
                Some(v) => self.custom(key@) == Some(*v),
                None => self.custom(key@) is None,
            },
    {
        assoc_lookup(&self.custom_data, key)
    }

    pub fn handler_metadata(&self, key: &str) -> (r: Option<&RequestValue>)
        ensures
            match r {
                Some(v) => self.handler(key@) == Some(*v),
                None => self.handler(key@) is None,
            },
    {
        assoc_lookup(&self.handler_metadata, key)
    }

    pub fn class_metadata(&self, key: &str) -> (r: Option<&RequestValue>)
        ensures
            match r {
                Some(v) => self.class(key@) == Some(*v),
                None => self.class(key@) is None,
            },
    {
        assoc_lookup(&self.class_metadata, key)
    }
}

/// A value the execution context carries for guards: a text, a list of
/// texts, or a value of some other type (which guards do not read).
#[derive(Debug, Clone, PartialEq, Eq)]
pub enum ContextValue {
    Text(String),
    List(Vec<String>),
    Other,
}

/// Runtime context passed into guards.
#[derive(Debug, Clone)]
pub struct ExecutionContext {
    request: Option<NivasaRequest>,
    request_context: Option<RequestContext>,
    handler_metadata: Vec<(String, ContextValue)>,
    class_metadata: Vec<(String, ContextValue)>,
    custom_data: Vec<(String, ContextValue)>,
}

impl ExecutionContext {
    pub closed spec fn shared(&self) -> Option<RequestContext> {
        self.request_context
    }

    pub closed spec fn handler(&self, key: Seq<char>) -> Option<ContextValue> {
        assoc_get(self.handler_metadata@, key)
    }

    pub closed spec fn class(&self, key: Seq<char>) -> Option<ContextValue> {
        assoc_get(self.class_metadata@, key)
    }

    pub closed spec fn custom(&self, key: Seq<char>) -> Option<ContextValue> {
        assoc_get(self.custom_data@, key)
    }

    pub closed spec fn request_spec(&self) -> Option<NivasaRequest> {
        self.request
    }

    /// A context for `request`, with no shared context and no data.
    pub fn new(request: NivasaRequest) -> (r: Self)
        ensures
            r.request_spec() == Some(request),
            r.shared() is None,
            forall|k: Seq<char>| #[trigger] r.handler(k) is None,
            forall|k: Seq<char>| #[trigger] r.class(k) is None,
            forall|k: Seq<char>| #[trigger] r.custom(k) is None,
    {
        ExecutionContext {
            request: Some(request),
            request_context: None,
            handler_metadata: Vec::new(),
            class_metadata: Vec::new(),
            custom_data: Vec::new(),
        }
    }

    /// A context without a request value, shared context or data.
    pub fn empty() -> (r: Self)
        ensures
            r.request_spec() is None,
            r.shared() is None,
            forall|k: Seq<char>| #[trigger] r.handler(k) is None,
            forall|k: Seq<char>| #[trigger] r.class(k) is None,
            forall|k: Seq<char>| #[trigger] r.custom(k) is None,
    {
        ExecutionContext {
            request: None,
            request_context: None,
            handler_metadata: Vec::new(),
            class_metadata: Vec::new(),
            custom_data: Vec::new(),
        }
    }

    /// Attach the shared request context, keeping everything else.
    pub fn with_request_context(self, request_context: RequestContext) -> (r: Self)
        ensures
            r.shared() == Some(request_context),
            r.request_spec() == self.request_spec(),
            forall|k: Seq<char>| #[trigger] r.handler(k) == self.handler(k),
            forall|k: Seq<char>| #[trigger] r.class(k) == self.class(k),
            forall|k: Seq<char>| #[trigger] r.custom(k) == self.custom(k),
    {
        ExecutionContext { request_context: Some(request_context), ..self }
    }

    /// The shared request context, when one is attached.
    pub fn request_context(&self) -> (r: Option<&RequestContext>)
        ensures
            match r {
                Some(c) => self.shared() == Some(*c),
                None => self.shared() is None,
            },
    {
        match &self.request_context {
            Some(c) => Some(c),
            None => None,
        }
    }

    /// The request value the context was made for.
    pub fn request(&self) -> (r: Option<&NivasaRequest>)
        ensures
            match r {
                Some(q) => self.request_spec() == Some(*q),
                None => self.request_spec() is None,
            },
    {
        match &self.request {
            Some(q) => Some(q),
            None => None,
        }
    }

    pub fn handler_metadata(&self, key: &str) -> (r: Option<&ContextValue>)
        ensures
            match r {
                Some(v) => self.handler(key@) == Some(*v),
                None => self.handler(key@) is None,
            },
    {
        assoc_lookup(&self.handler_metadata, key)
    }

    pub fn class_metadata(&self, key: &str) -> (r: Option<&ContextValue>)
        ensures
            match r {
                Some(v) => self.class(key@) == Some(*v),
                None => self.class(key@) is None,
            },
    {
        assoc_lookup(&self.class_metadata, key)
    }

    pub fn custom_data(&self, key: &str) -> (r: Option<&ContextValue>)
        ensures
            match r {
                Some(v) => self.custom(key@) == Some(*v),
                None => self.custom(key@) is None,
            },
    {
        assoc_lookup(&self.custom_data, key)
    }

    pub fn insert_handler_metadata(&mut self, key: &str, value: ContextValue)
        ensures
            forall|k: Seq<char>|
                #[trigger] final(self).handler(k) == if k == key@ {
                    Some(value)
                } else {
                    old(self).handler(k)
                },
            forall|k: Seq<char>| #[trigger] final(self).class(k) == old(self).class(k),
            forall|k: Seq<char>| #[trigger] final(self).custom(k) == old(self).custom(k),
            final(self).shared() == old(self).shared(),
            final(self).request_spec() == old(self).request_spec(),
    {
        assoc_insert(&mut self.handler_metadata, key.to_owned(), value);
    }

    pub fn insert_class_metadata(&mut self, key: &str, value: ContextValue)
        ensures
            forall|k: Seq<char>|
                #[trigger] final(self).class(k) == if k == key@ {
                    Some(value)
                } else {
                    old(self).class(k)
                },
            forall|k: Seq<char>| #[trigger] final(self).handler(k) == old(self).handler(k),
            forall|k: Seq<char>| #[trigger] final(self).custom(k) == old(self).custom(k),
            final(self).shared() == old(self).shared(),
            final(self).request_spec() == old(self).request_spec(),
    {
        assoc_insert(&mut self.class_metadata, key.to_owned(), value);
    }

    pub fn insert_custom_data(&mut self, key: &str, value: ContextValue)
        ensures
            forall|k: Seq<char>|
                #[trigger] final(self).custom(k) == if k == key@ {
                    Some(value)
                } else {
                    old(self).custom(k)
                },
            forall|k: Seq<char>| #[trigger] final(self).handler(k) == old(self).handler(k),
            forall|k: Seq<char>| #[trigger] final(self).class(k) == old(self).class(k),
            final(self).shared() == old(self).shared(),
            final(self).request_spec() == old(self).request_spec(),
    {
        assoc_insert(&mut self.custom_data, key.to_owned(), value);
    }

    pub fn with_handler_metadata(self, key: &str, value: ContextValue) -> (r: Self)
        ensures
            forall|k: Seq<char>|
                #[trigger] r.handler(k) == if k == key@ {
                    Some(value)
                } else {
                    self.handler(k)
                },
            forall|k: Seq<char>| #[trigger] r.class(k) == self.class(k),
            forall|k: Seq<char>| #[trigger] r.custom(k) == self.custom(k),
            r.shared() == self.shared(),
            r.request_spec() == self.request_spec(),
    {
        let mut r = self;
        r.insert_handler_metadata(key, value);
        r
    }

    pub fn with_class_metadata(self, key: &str, value: ContextValue) -> (r: Self)
        ensures
            forall|k: Seq<char>|
                #[trigger] r.class(k) == if k == key@ {
                    Some(value)
                } else {
                    self.class(k)
                },
            forall|k: Seq<char>| #[trigger] r.handler(k) == self.handler(k),
            forall|k: Seq<char>| #[trigger] r.custom(k) == self.custom(k),
            r.shared() == self.shared(),
            r.request_spec() == self.request_spec(),
    {
        let mut r = self;
        r.insert_class_metadata(key, value);
        r
    }

    pub fn with_custom_data(self, key: &str, value: ContextValue) -> (r: Self)
        ensures
            forall|k: Seq<char>|
                #[trigger] r.custom(k) == if k == key@ {
                    Some(value)
                } else {
                    self.custom(k)
                },
            forall|k: Seq<char>| #[trigger] r.handler(k) == self.handler(k),
            forall|k: Seq<char>| #[trigger] r.class(k) == self.class(k),
            r.shared() == self.shared(),
            r.request_spec() == self.request_spec(),
    {
        let mut r = self;
        r.insert_custom_data(key, value);
        r
    }
}

/// Request guard surface: `Ok(true)` lets the request through, `Ok(false)`
/// blocks it before later pipeline stages.
pub trait Guard {
    /// The answer of the guard for a context.
    spec fn activation(&self, context: ExecutionContext) -> Result<bool, HttpException>;

    fn can_activate(&self, context: &ExecutionContext) -> (r: Result<bool, HttpException>)
        ensures
            r == self.activation(*context),
    ;
}

// ---------------------------------------------------------------------------
// Authentication
// ---------------------------------------------------------------------------

/// Whether `token` has the shape `Bearer <header.payload.signature>` once
/// trimmed: exactly three dot-separated segments, none of them blank.
pub open spec fn looks_like_jwt_bearer(token: Seq<char>) -> bool {
    let t = trim(token);
    let segments = split(t.skip(7), seq!['.']);
    &&& starts_with(t, "Bearer "@)
    &&& segments.len() == 3
    &&& forall|i: int| 0 <= i < 3 ==> #[trigger] trim(segments[i]).len() > 0
}

/// The bearer token a context carries: the shared context's `authorization`
/// string when there is one, else the context's own `authorization` text.
pub open spec fn bearer_token_of(context: ExecutionContext) -> Option<Seq<char>> {
    let shared = match context.shared() {
        Some(rc) => match rc.custom("authorization"@) {
            Some(RequestValue::Str(s)) => Some(s@),
            _ => None,
        },
        None => None,
    };
    match shared {
        Some(s) => Some(s),
        None => match context.custom("authorization"@) {
            Some(ContextValue::Text(s)) => Some(s@),
            _ => None,
        },
    }
}

/// Authentication guard that accepts a JWT-shaped bearer token.
#[derive(Debug, Default, Clone, Copy)]
pub struct AuthGuard;

impl AuthGuard {
    pub fn new() -> (r: Self) {
        AuthGuard
    }

    /// The bearer token the context carries, if any.
    pub fn bearer_token_from_context(context: &ExecutionContext) -> (r: Option<String>)
        ensures
            match r {
                Some(t) => bearer_token_of(*context) == Some(t@),
                None => bearer_token_of(*context) is None,
            },
    {
        proof {
            reveal_strlit("authorization");
        }
        match context.request_context() {
            Some(rc) => match rc.custom_data("authorization") {
                Some(RequestValue::Str(s)) => {
                    return Some(s.clone());
                },
                _ => {},
            },
            None => {},
        }
        match context.custom_data("authorization") {
            Some(ContextValue::Text(s)) => Some(s.clone()),
            _ => None,
        }
    }

    /// Whether `token` is `Bearer ` and three non-blank dot-separated segments.
    pub fn looks_like_jwt_bearer(token: &str) -> (r: bool)
        ensures
            r == looks_like_jwt_bearer(token@),
    {
        let chars = chars_of(token);
        let t = trim_chars(chars.as_slice());
        let prefix = chars_of("Bearer ");
        proof {
            reveal_strlit("Bearer ");
        }
        if !chars_starts_with(t.as_slice(), prefix.as_slice()) {
            return false;
        }
        let rest = copy_range(t.as_slice(), 7, t.len());
        assert(rest@ =~= t@.skip(7));
        let sep: Vec<char> = vec!['.'];
        assert(sep@ =~= seq!['.']);
        let segments = split_chars(rest.as_slice(), sep.as_slice());
        if segments.len() != 3 {
            return false;
        }
        let ghost segs = views(segments@);
        let mut i: usize = 0;
        while i < 3
            invariant
                i <= 3,
                segments@.len() == 3,
                segs == views(segments@),
                segs == split(trim(token@).skip(7), seq!['.']),
                starts_with(trim(token@), "Bearer "@),
                forall|j: int| 0 <= j < i ==> #[trigger] trim(segs[j]).len() > 0,
            decreases 3 - i,
        {
            let seg = trim_chars(segments[i].as_slice());
            assert(segs[i as int] == segments@[i as int]@);
            if seg.len() == 0 {
                assert(trim(segs[i as int]).len() == 0);
                return false;
            }
            i += 1;
        }
        true
    }
}

impl Guard for AuthGuard {
    /// Allows exactly the requests that carry a JWT-shaped bearer token.
    open spec fn activation(&self, context: ExecutionContext) -> Result<bool, HttpException> {
        Ok(
            match bearer_token_of(context) {
                Some(t) => looks_like_jwt_bearer(t),
                None => false,
            },
        )
    }

    fn can_activate(&self, context: &ExecutionContext) -> (r: Result<bool, HttpException>) {
        match AuthGuard::bearer_token_from_context(context) {
            Some(token) => Ok(AuthGuard::looks_like_jwt_bearer(token.as_str())),
            None => Ok(false),
        }
    }
}


// ---------------------------------------------------------------------------
// Throttling
// ---------------------------------------------------------------------------

/// The whole seconds of a duration, as `Duration::as_secs` reads them.
pub uninterp spec fn duration_whole_secs(d: core::time::Duration) -> u64;

/// The nanoseconds of a duration beyond its whole seconds, as
/// `Duration::subsec_nanos` reads them.
pub uninterp spec fn duration_extra_nanos(d: core::time::Duration) -> u32;

/// `Duration::as_secs`; its result is named by `duration_whole_secs`.
#[verifier::external_body]
fn duration_secs(d: &core::time::Duration) -> (r: u64)
    ensures
        r == duration_whole_secs(*d),
{
    d.as_secs()
}

/// `Duration::subsec_nanos`, which is always under one second; its result
/// is named by `duration_extra_nanos`.
#[verifier::external_body]
fn duration_subsec_nanos(d: &core::time::Duration) -> (r: u32)
    ensures
        r == duration_extra_nanos(*d),
        r < 1_000_000_000,
{
    d.subsec_nanos()
}

/// `Duration::new`; with fewer than a second of nanoseconds it cannot
/// overflow, and the duration reads back the seconds and nanoseconds it was
/// made of.
#[verifier::external_body]
fn duration_new(secs: u64, nanos: u32) -> (r: core::time::Duration)
    requires
        nanos < 1_000_000_000,
    ensures
        duration_whole_secs(r) == secs,
        duration_extra_nanos(r) == nanos,
{
    core::time::Duration::new(secs, nanos)
}

/// Throttling guard: the configured request limit and window. It admits a
/// request when the configuration is usable: a positive limit and a
/// non-empty window.
#[derive(Debug, Clone, Copy, PartialEq, Eq)]
pub struct ThrottlerGuard {
    limit: u32,
    ttl_secs: u64,
    ttl_nanos: u32,
}

/// Whether a limit and window (seconds and nanoseconds) make a usable configuration.
pub open spec fn throttle_configured(limit: u32, secs: u64, nanos: u32) -> bool {
    limit > 0 && (secs > 0 || nanos > 0)
}

impl ThrottlerGuard {
    pub closed spec fn limit_spec(&self) -> u32 {
        self.limit
    }

    pub closed spec fn window_secs(&self) -> u64 {
        self.ttl_secs
    }

    pub closed spec fn window_nanos(&self) -> u32 {
        self.ttl_nanos
    }

    /// The window's nanoseconds stay under one second.
    #[verifier::type_invariant]
    spec fn wf(&self) -> bool {
        self.ttl_nanos < 1_000_000_000
    }

    /// A guard allowing `limit` requests per window of `ttl`.
    pub fn new(limit: u32, ttl: core::time::Duration) -> (r: Self)
        ensures
            r.limit_spec() == limit,
            r.window_secs() == duration_whole_secs(ttl),
            r.window_nanos() == duration_extra_nanos(ttl),
    {
        let secs = duration_secs(&ttl);
        let nanos = duration_subsec_nanos(&ttl);
        ThrottlerGuard { limit, ttl_secs: secs, ttl_nanos: nanos }
    }

    /// A guard allowing `limit` requests per window of `secs` seconds and
    /// `nanos` nanoseconds.
    pub fn from_parts(limit: u32, secs: u64, nanos: u32) -> (r: Self)
        requires
            nanos < 1_000_000_000,
        ensures
            r.limit_spec() == limit,
            r.window_secs() == secs,
            r.window_nanos() == nanos,
    {
        ThrottlerGuard { limit, ttl_secs: secs, ttl_nanos: nanos }
    }

    /// Number of requests allowed in the window.
    pub fn limit(&self) -> (r: u32)
        ensures
            r == self.limit_spec(),
    {
        self.limit
    }

    /// Whole seconds of the window.
    pub fn ttl_secs(&self) -> (r: u64)
        ensures
            r == self.window_secs(),
    {
        self.ttl_secs
    }

    /// Nanoseconds of the window beyond its whole seconds.
    pub fn ttl_subsec_nanos(&self) -> (r: u32)
        ensures
            r == self.window_nanos(),
    {
        self.ttl_nanos
    }

    /// The window as a `Duration`.
    pub fn ttl(&self) -> (r: core::time::Duration)
        ensures
            duration_whole_secs(r) == self.window_secs(),
            duration_extra_nanos(r) == self.window_nanos(),
    {
        proof {
            use_type_invariant(self);
        }
        duration_new(self.ttl_secs, self.ttl_nanos)
    }

    /// Positive limit and non-empty window.
    pub fn has_minimal_valid_configuration(&self) -> (r: bool)
        ensures
            r == throttle_configured(self.limit_spec(), self.window_secs(), self.window_nanos()),
    {
        self.limit > 0 && (self.ttl_secs > 0 || self.ttl_nanos > 0)
    }
}

impl Guard for ThrottlerGuard {
    /// Admits a request when the configuration is usable.
    open spec fn activation(&self, context: ExecutionContext) -> Result<bool, HttpException> {
        Ok(throttle_configured(self.limit_spec(), self.window_secs(), self.window_nanos()))
    }

    fn can_activate(&self, context: &ExecutionContext) -> (r: Result<bool, HttpException>) {
        Ok(self.has_minimal_valid_configuration())
    }
}

// ---------------------------------------------------------------------------
// Roles
// ---------------------------------------------------------------------------

pub open spec fn strings_view(v: Seq<String>) -> Seq<Seq<char>> {
    v.map_values(|s: String| s@)
}

/// The roles a JSON value lists: an array whose elements are all strings.
pub open spec fn json_roles(v: RequestValue) -> Option<Seq<Seq<char>>> {
    match v {
        RequestValue::Array(items) => if forall|i: int| 0 <= i < items@.len() ==> #[trigger] items@[i] is Some {
            Some(Seq::new(items@.len(), |i: int| items@[i]->0@))
        } else {
            None
        },
        _ => None,
    }
}

/// The roles a context value lists: a list of texts.
pub open spec fn context_roles(v: Option<ContextValue>) -> Option<Seq<Seq<char>>> {
    match v {
        Some(ContextValue::List(l)) => Some(strings_view(l@)),
        _ => None,
    }
}

/// The roles a handler requires: the shared context's handler `roles`
/// metadata, else its class metadata; without either, the context's own
/// handler metadata, else its class metadata.
pub open spec fn required_roles_of(context: ExecutionContext) -> Option<Seq<Seq<char>>> {
    let fallback = match context_roles(context.handler("roles"@)) {
        Some(r) => Some(r),
        None => context_roles(context.class("roles"@)),
    };
    match context.shared() {
        Some(rc) => match rc.handler("roles"@) {
            Some(v) => json_roles(v),
            None => match rc.class("roles"@) {
                Some(v) => json_roles(v),
                None => fallback,
            },
        },
        None => fallback,
    }
}

/// Handler-level `roles` metadata of the shared request context takes
/// precedence: when it is present, the required roles are exactly the roles
/// it lists, whatever class-level or context-level roles are also present.
pub proof fn lemma_handler_roles_take_precedence(context: ExecutionContext, rc: RequestContext, roles: RequestValue)
    requires
        context.shared() == Some(rc),
        rc.handler("roles"@) == Some(roles),
    ensures
        required_roles_of(context) == json_roles(roles),
        roles_allow(context) == match json_roles(roles) {
            None => true,
            Some(required) => roles_overlap(
                required,
                match principal_roles_of(context) {
                    Some(p) => p,
                    None => Seq::empty(),
                },
            ),
        },
{
}

/// Without handler-level `roles` in the shared request context, its
/// class-level `roles` decide; and without a shared request context, the
/// context's own handler-level role list takes precedence over its
/// class-level one.
pub proof fn lemma_class_roles_apply_without_handler_roles(context: ExecutionContext)
    ensures
        context.shared() matches Some(rc) ==> (rc.handler("roles"@) is None ==> (rc.class("roles"@) matches Some(
            c,
        ) ==> required_roles_of(context) == json_roles(c))),
        context.shared() is None ==> (context.handler("roles"@) matches Some(ContextValue::List(l))
            ==> required_roles_of(context) == Some(strings_view(l@))),
{
}

/// The roles the caller holds: the shared context's `roles` custom data,
/// else the context's own.
pub open spec fn principal_roles_of(context: ExecutionContext) -> Option<Seq<Seq<char>>> {
    match context.shared() {
        Some(rc) => match rc.custom("roles"@) {
            Some(v) => json_roles(v),
            None => context_roles(context.custom("roles"@)),
        },
        None => context_roles(context.custom("roles"@)),
    }
}

/// Whether some required role is among the principal's roles.
pub open spec fn roles_overlap(required: Seq<Seq<char>>, principal: Seq<Seq<char>>) -> bool {
    exists|i: int| 0 <= i < required.len() && principal.contains(#[trigger] required[i])
}

/// The decision of the roles guard: no required roles allows everyone;
/// otherwise some required role must be held.
pub open spec fn roles_allow(context: ExecutionContext) -> bool {
    match required_roles_of(context) {
        None => true,
        Some(required) => roles_overlap(
            required,
            match principal_roles_of(context) {
                Some(p) => p,
                None => Seq::empty(),
            },
        ),
    }
}

/// Guard comparing the roles a handler requires with those the caller holds.
#[derive(Debug, Default, Clone, Copy)]
pub struct RolesGuard;

fn strings_of_json_array(items: &Vec<Option<String>>) -> (r: Option<Vec<String>>)
    ensures
        match r {
            Some(v) => json_roles(RequestValue::Array(*items)) == Some(strings_view(v@)),
            None => json_roles(RequestValue::Array(*items)) is None,
        },
{
    let mut out: Vec<String> = Vec::new();
    let mut i: usize = 0;
    while i < items.len()
        invariant
            i <= items@.len(),
            out@.len() == i,
            forall|j: int| 0 <= j < i ==> #[trigger] items@[j] is Some,
            forall|j: int| 0 <= j < i ==> #[trigger] out@[j]@ == items@[j]->0@,
        decreases items@.len() - i,
    {
        match &items[i] {
            Some(s) => out.push(s.clone()),
            None => {
                assert(!(items@[i as int] is Some));
                return None;
            },
        }
        i += 1;
    }
    assert(strings_view(out@) =~= Seq::new(items@.len(), |j: int| items@[j]->0@));
    Some(out)
}

fn roles_of_json(v: &RequestValue) -> (r: Option<Vec<String>>)
    ensures
        match r {
            Some(l) => json_roles(*v) == Some(strings_view(l@)),
            None => json_roles(*v) is None,
        },
{
    match v {
        RequestValue::Array(items) => strings_of_json_array(items),
        _ => None,
    }
}

fn roles_of_context(v: Option<&ContextValue>) -> (r: Option<Vec<String>>)
    ensures
        match r {
            Some(l) => context_roles(match v {
                Some(x) => Some(*x),
                None => None,
            }) == Some(strings_view(l@)),
            None => context_roles(match v {
                Some(x) => Some(*x),
                None => None,
            }) is None,
        },
{
    match v {
        Some(ContextValue::List(l)) => {
            let mut out: Vec<String> = Vec::new();
            let mut i: usize = 0;
            while i < l.len()
                invariant
                    i <= l@.len(),
                    out@.len() == i,
                    forall|j: int| 0 <= j < i ==> #[trigger] out@[j]@ == l@[j]@,
                decreases l@.len() - i,
            {
                let s = l[i].clone();
                out.push(s);
                i += 1;
            }
            assert(strings_view(out@) =~= strings_view(l@));
            Some(out)
        },
        _ => None,
    }
}

impl RolesGuard {
    pub fn new() -> (r: Self) {
        RolesGuard
    }

    /// The roles the handler requires, if any are declared.
    pub fn required_roles(context: &ExecutionContext) -> (r: Option<Vec<String>>)
        ensures
            match r {
                Some(l) => required_roles_of(*context) == Some(strings_view(l@)),
                None => required_roles_of(*context) is None,
            },
    {
        proof {
            reveal_strlit("roles");
        }
        match context.request_context() {
            Some(rc) => {
                match rc.handler_metadata("roles") {
                    Some(v) => {
                        return roles_of_json(v);
                    },
                    None => {},
                }
                match rc.class_metadata("roles") {
                    Some(v) => {
                        return roles_of_json(v);
                    },
                    None => {},
                }
            },
            None => {},
        }
        match roles_of_context(context.handler_metadata("roles")) {
            Some(r) => Some(r),
            None => roles_of_context(context.class_metadata("roles")),
        }
    }

    /// The roles the caller holds, if any are recorded.
    pub fn principal_roles(context: &ExecutionContext) -> (r: Option<Vec<String>>)
        ensures
            match r {
                Some(l) => principal_roles_of(*context) == Some(strings_view(l@)),
                None => principal_roles_of(*context) is None,
            },
    {
        proof {
            reveal_strlit("roles");
        }
        match context.request_context() {
            Some(rc) => match rc.custom_data("roles") {
                Some(v) => {
                    return roles_of_json(v);
                },
                None => {},
            },
            None => {},
        }
        roles_of_context(context.custom_data("roles"))
    }

    /// Whether some required role is among the principal's.
    pub fn roles_match(required: &[String], principal: &[String]) -> (r: bool)
        ensures
            r == roles_overlap(strings_view(required@), strings_view(principal@)),
    {
        let ghost req = strings_view(required@);
        let ghost pri = strings_view(principal@);
        let mut i: usize = 0;
        while i < required.len()
            invariant
                i <= required@.len(),
                req == strings_view(required@),
                pri == strings_view(principal@),
                forall|j: int| 0 <= j < i ==> !pri.contains(#[trigger] req[j]),
            decreases required@.len() - i,
        {
            let mut k: usize = 0;
            while k < principal.len()
                invariant
                    i < required@.len(),
                    k <= principal@.len(),
                    req == strings_view(required@),
                    pri == strings_view(principal@),
                    forall|j: int| 0 <= j < k ==> pri[j] != req[i as int],
                decreases principal@.len() - k,
            {
                if principal[k] == required[i] {
                    assert(pri[k as int] == req[i as int]);
                    assert(pri.contains(req[i as int]));
                    return true;
                }
                k += 1;
            }
            assert(!pri.contains(req[i as int]));
            i += 1;
        }
        false
    }
}

impl Guard for RolesGuard {
    /// Allows when no roles are required, or the principal holds one of them.
    open spec fn activation(&self, context: ExecutionContext) -> Result<bool, HttpException> {
        Ok(roles_allow(context))
    }

    fn can_activate(&self, context: &ExecutionContext) -> (r: Result<bool, HttpException>) {
        let required = match RolesGuard::required_roles(context) {
            Some(roles) => roles,
            None => {
                return Ok(true);
            },
        };
        let principal = match RolesGuard::principal_roles(context) {
            Some(p) => p,
            None => {
                let e: Vec<String> = Vec::new();
                assert(strings_view(e@) =~= Seq::<Seq<char>>::empty());
                e
            },
        };
        Ok(RolesGuard::roles_match(required.as_slice(), principal.as_slice()))
    }
}

} // verus!
