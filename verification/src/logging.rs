//! Logger configuration and the decisions of the logger service: which
//! records pass the configured levels, what fields they carry, and whether
//! the configured directives are valid for `tracing-subscriber`.
//!
//! The service does not write records itself: it hands back the record to
//! emit, and the application passes it to `tracing`.
use vstd::prelude::*;
use crate::assoc::assoc_get;
use crate::text::{chars_of, lower_all, trim, trim_chars, chars_lower};
use crate::throttling::{DynamicModule, ModuleMetadata};

verus! {

/// Output format for framework logging.
#[derive(Debug, Clone, Copy, Default, PartialEq, Eq, Hash, Structural)]
pub enum LoggerFormat {
    /// Structured JSON logging for machines and production sinks.
    Json,
    /// Human-readable console logging for local development.
    #[default]
    Pretty,
}

/// Lexicographic order of texts by code point (the order of `String`).
pub open spec fn text_lt(a: Seq<char>, b: Seq<char>) -> bool
    decreases a.len(),
{
    if a.len() == 0 {
        b.len() > 0
    } else if b.len() == 0 {
        false
    } else if a[0] != b[0] {
        (a[0] as int) < (b[0] as int)
    } else {
        text_lt(a.drop_first(), b.drop_first())
    }
}

fn chars_lt(a: &[char], b: &[char]) -> (r: bool)
    ensures
        r == text_lt(a@, b@),
{
    let mut i: usize = 0;
    assert(a@.skip(0) =~= a@);
    assert(b@.skip(0) =~= b@);
    while i < a.len() && i < b.len()
        invariant
            i <= a@.len(),
            i <= b@.len(),
            text_lt(a@, b@) == text_lt(a@.skip(i as int), b@.skip(i as int)),
        decreases a@.len() - i,
    {
        assert(a@.skip(i as int).drop_first() =~= a@.skip(i + 1));
        assert(b@.skip(i as int).drop_first() =~= b@.skip(i + 1));
        if a[i] != b[i] {
            return a[i] < b[i];
        }
        i += 1;
    }
    i < b.len()
}

fn key_lt(a: &String, b: &[char]) -> (r: bool)
    ensures
        r == text_lt(a@, b@),
{
    let chars = chars_of(a.as_str());
    chars_lt(chars.as_slice(), b)
}

/// Keys in strictly increasing order (so each at most once).
pub open spec fn sorted_keys(entries: Seq<(String, String)>) -> bool {
    forall|i: int, j: int| 0 <= i < j < entries.len() ==> text_lt(#[trigger] entries[i].0@, #[trigger] entries[j].0@)
}

proof fn lemma_text_lt_irreflexive(a: Seq<char>)
    ensures
        !text_lt(a, a),
    decreases a.len(),
{
    if a.len() > 0 {
        lemma_text_lt_irreflexive(a.drop_first());
    }
}

proof fn lemma_text_lt_total(a: Seq<char>, b: Seq<char>)
    ensures
        a != b ==> text_lt(a, b) || text_lt(b, a),
    decreases a.len(),
{
    if a.len() > 0 && b.len() > 0 && a[0] == b[0] {
        lemma_text_lt_total(a.drop_first(), b.drop_first());
        if a.drop_first() =~= b.drop_first() {
            assert(a =~= b) by {
                assert forall|i: int| 0 <= i < a.len() implies a[i] == b[i] by {
                    if i > 0 {
                        assert(a[i] == a.drop_first()[i - 1]);
                        assert(b[i] == b.drop_first()[i - 1]);
                    }
                }
            }
        }
    } else if a.len() == 0 && b.len() == 0 {
        assert(a =~= b);
    }
}

proof fn lemma_text_lt_transitive(a: Seq<char>, b: Seq<char>, c: Seq<char>)
    requires
        text_lt(a, b),
        text_lt(b, c),
    ensures
        text_lt(a, c),
    decreases a.len(),
{
    if a.len() > 0 && b.len() > 0 && c.len() > 0 && a[0] == b[0] && b[0] == c[0] {
        lemma_text_lt_transitive(a.drop_first(), b.drop_first(), c.drop_first());
    }
}

/// Bootstrap-facing logger options.
#[derive(Debug, Clone, PartialEq, Eq)]
pub struct LoggerOptions {
    pub is_global: bool,
    pub format: LoggerFormat,
    pub default_level: String,
    pub module_levels: Vec<(String, String)>,
}

impl LoggerOptions {
    /// The per-module level directives.
    pub open spec fn levels(&self) -> Seq<(String, String)> {
        self.module_levels@
    }

    /// The level directive configured for `module`.
    pub open spec fn level_for(&self, module: Seq<char>) -> Option<Seq<char>> {
        match assoc_get(self.levels(), module) {
            Some(l) => Some(l@),
            None => None,
        }
    }

    /// Not global, pretty output, default level `info`, no module levels.
    pub fn new() -> (r: Self)
        ensures
            !r.is_global,
            r.format == LoggerFormat::Pretty,
            r.default_level@ == "info"@,
            r.levels().len() == 0,
    {
        LoggerOptions {
            is_global: false,
            format: LoggerFormat::Pretty,
            default_level: String::from_str("info"),
            module_levels: Vec::new(),
        }
    }

    pub fn with_global(self, is_global: bool) -> (r: Self)
        ensures
            r == (LoggerOptions { is_global, ..self }),
    {
        LoggerOptions { is_global, ..self }
    }

    pub fn with_json(self) -> (r: Self)
        ensures
            r == (LoggerOptions { format: LoggerFormat::Json, ..self }),
    {
        LoggerOptions { format: LoggerFormat::Json, ..self }
    }

    pub fn with_pretty(self) -> (r: Self)
        ensures
            r == (LoggerOptions { format: LoggerFormat::Pretty, ..self }),
    {
        LoggerOptions { format: LoggerFormat::Pretty, ..self }
    }

    /// Set the default level directive.
    pub fn with_default_level(self, level: &str) -> (r: Self)
        ensures
            r.default_level@ == level@,
            r.is_global == self.is_global,
            r.format == self.format,
            r.levels() == self.levels(),
    {
        LoggerOptions { default_level: level.to_owned(), ..self }
    }

    /// Set the level directive of `module`, replacing an earlier one; the
    /// module levels stay in key order.
    pub fn with_module_level(self, module: &str, level: &str) -> (r: Self)
        ensures
            sorted_keys(self.levels()) ==> sorted_keys(r.levels()),
            forall|k: Seq<char>|
                #[trigger] r.level_for(k) == if k == module@ {
                    Some(level@)
                } else {
                    self.level_for(k)
                },
            r.is_global == self.is_global,
            r.format == self.format,
            r.default_level == self.default_level,
    {
        let mut r = self;
        let ghost before = r.module_levels@;
        let key = chars_of(module);
        let mut i: usize = 0;
        while i < r.module_levels.len() && key_lt(&r.module_levels[i].0, key.as_slice())
            invariant
                i <= before.len(),
                r.module_levels@ == before,
                key@ == module@,
                forall|j: int| 0 <= j < i ==> text_lt(#[trigger] before[j].0@, module@),
            decreases before.len() - i,
        {
            i += 1;
        }
        let ghost pos = i as int;
        let at_end = i == r.module_levels.len();
        let same = if at_end {
            false
        } else {
            let existing = chars_of(r.module_levels[i].0.as_str());
            !chars_lt(key.as_slice(), existing.as_slice())
        };
        proof {
            if !at_end {
                assert(!text_lt(before[pos].0@, module@));
                lemma_text_lt_total(before[pos].0@, module@);
                if same {
                    assert(before[pos].0@ == module@);
                } else {
                    assert(text_lt(module@, before[pos].0@));
                }
            }
        }
        let entry = (module.to_owned(), level.to_owned());
        let ghost e = entry;
        proof {
            lemma_sorted_put(before, pos, e, same);
        }
        if same {
            r.module_levels.set(i, entry);
            assert(r.module_levels@ == before.update(pos, e));
        } else {
            r.module_levels.insert(i, entry);
            assert(r.module_levels@ == before.insert(pos, e));
        }
        assert(r.module_levels@ == put_at(before, pos, e, same));
        assert forall|k: Seq<char>|
            #[trigger] r.level_for(k) == if k == module@ {
                Some(level@)
            } else {
                self.level_for(k)
            } by {
            assert(assoc_get(r.module_levels@, k) == if k == e.0@ {
                Some(e.1)
            } else {
                assoc_get(before, k)
            });
        }
        r
    }
}

proof fn lemma_assoc_concat<V>(a: Seq<(String, V)>, b: Seq<(String, V)>, k: Seq<char>)
    ensures
        assoc_get(a + b, k) == match assoc_get(a, k) {
            Some(v) => Some(v),
            None => assoc_get(b, k),
        },
    decreases a.len(),
{
    if a.len() > 0 {
        assert((a + b).drop_first() =~= a.drop_first() + b);
        assert((a + b)[0] == a[0]);
        lemma_assoc_concat(a.drop_first(), b, k);
    } else {
        assert(a + b =~= b);
    }
}

proof fn lemma_assoc_prefix_absent(a: Seq<(String, String)>, k: Seq<char>)
    requires
        forall|j: int| 0 <= j < a.len() ==> text_lt(#[trigger] a[j].0@, k),
    ensures
        assoc_get(a, k) is None,
    decreases a.len(),
{
    if a.len() > 0 {
        lemma_text_lt_irreflexive(k);
        assert(text_lt(a[0].0@, k));
        assert forall|j: int| 0 <= j < a.drop_first().len() implies text_lt(
            #[trigger] a.drop_first()[j].0@,
            k,
        ) by {
            assert(a.drop_first()[j] == a[j + 1]);
        }
        lemma_assoc_prefix_absent(a.drop_first(), k);
    }
}

proof fn lemma_assoc_cons(e: (String, String), post: Seq<(String, String)>, k: Seq<char>)
    ensures
        assoc_get(seq![e] + post, k) == if e.0@ == k {
            Some(e.1)
        } else {
            assoc_get(post, k)
        },
{
    assert((seq![e] + post).drop_first() =~= post);
    assert((seq![e] + post)[0] == e);
}

/// `entry` in place of the entry at `pos`, or inserted at `pos`.
pub open spec fn put_at(
    before: Seq<(String, String)>,
    pos: int,
    entry: (String, String),
    replaced: bool,
) -> Seq<(String, String)> {
    if replaced {
        before.update(pos, entry)
    } else {
        before.insert(pos, entry)
    }
}

/// Putting `entry` at `pos` of sorted entries (replacing the entry with the
/// same key, or inserting before the first greater key) keeps them sorted
/// and maps the key to the new value.
proof fn lemma_sorted_put(
    before: Seq<(String, String)>,
    pos: int,
    entry: (String, String),
    replaced: bool,
)
    requires
        0 <= pos <= before.len(),
        forall|j: int| 0 <= j < pos ==> text_lt(#[trigger] before[j].0@, entry.0@),
        replaced ==> pos < before.len() && before[pos].0@ == entry.0@,
        !replaced ==> (pos < before.len() ==> text_lt(entry.0@, before[pos].0@)),
    ensures
        sorted_keys(before) ==> sorted_keys(put_at(before, pos, entry, replaced)),
        forall|k: Seq<char>|
            #[trigger] assoc_get(put_at(before, pos, entry, replaced), k) == if k == entry.0@ {
                Some(entry.1)
            } else {
                assoc_get(before, k)
            },
{
    let after = put_at(before, pos, entry, replaced);
    let pre = before.take(pos);
    let post = if replaced {
        before.skip(pos + 1)
    } else {
        before.skip(pos)
    };
    assert(after =~= pre + (seq![entry] + post));
    if replaced {
        assert(before =~= pre + (seq![before[pos]] + post));
    } else {
        assert(before =~= pre + post);
    }
    assert forall|j: int| 0 <= j < pre.len() implies text_lt(#[trigger] pre[j].0@, entry.0@) by {
        assert(pre[j] == before[j]);
    }
    assert forall|k: Seq<char>|
        #[trigger] assoc_get(after, k) == if k == entry.0@ {
            Some(entry.1)
        } else {
            assoc_get(before, k)
        } by {
        lemma_assoc_concat(pre, seq![entry] + post, k);
        lemma_assoc_cons(entry, post, k);
        if replaced {
            lemma_assoc_concat(pre, seq![before[pos]] + post, k);
            lemma_assoc_cons(before[pos], post, k);
        } else {
            lemma_assoc_concat(pre, post, k);
        }
        if k == entry.0@ {
            lemma_assoc_prefix_absent(pre, k);
        }
    }
    assert forall|i: int, j: int| sorted_keys(before) && 0 <= i < j < after.len() implies text_lt(
        #[trigger] after[i].0@,
        #[trigger] after[j].0@,
    ) by {
        if replaced {
            assert(after[i].0@ == before[i].0@);
            assert(after[j].0@ == before[j].0@);
        } else {
            if j < pos {
                assert(after[i] == before[i] && after[j] == before[j]);
            } else if j == pos {
                assert(after[i] == before[i]);
            } else if i < pos {
                assert(after[i] == before[i] && after[j] == before[j - 1]);
            } else if i == pos {
                assert(after[j] == before[j - 1]);
                if j - 1 > pos {
                    assert(text_lt(before[pos].0@, before[j - 1].0@));
                    lemma_text_lt_transitive(entry.0@, before[pos].0@, before[j - 1].0@);
                }
            } else {
                assert(after[i] == before[i - 1] && after[j] == before[j - 1]);
            }
        }
    }
}


/// Structured fields propagated across logging calls.
#[derive(Debug, Clone, Default, PartialEq, Eq)]
pub struct LogContext {
    pub request_id: Option<String>,
    pub user_id: Option<String>,
    pub module_name: Option<String>,
}

impl LogContext {
    /// An empty context.
    pub fn new() -> (r: Self)
        ensures
            r.request_id is None,
            r.user_id is None,
            r.module_name is None,
    {
        LogContext { request_id: None, user_id: None, module_name: None }
    }

    pub fn with_request_id(self, request_id: &str) -> (r: Self)
        ensures
            r.request_id matches Some(v) && v@ == request_id@,
            r.user_id == self.user_id,
            r.module_name == self.module_name,
    {
        LogContext { request_id: Some(request_id.to_owned()), ..self }
    }

    pub fn with_user_id(self, user_id: &str) -> (r: Self)
        ensures
            r.user_id matches Some(v) && v@ == user_id@,
            r.request_id == self.request_id,
            r.module_name == self.module_name,
    {
        LogContext { user_id: Some(user_id.to_owned()), ..self }
    }

    pub fn with_module_name(self, module_name: &str) -> (r: Self)
        ensures
            r.module_name matches Some(v) && v@ == module_name@,
            r.request_id == self.request_id,
            r.user_id == self.user_id,
    {
        LogContext { module_name: Some(module_name.to_owned()), ..self }
    }
}

/// Errors raised while preparing a logging subscriber.
#[derive(Debug, Clone, PartialEq, Eq)]
pub enum LoggerInitError {
    InvalidDirective(String),
}

impl LoggerInitError {
    /// `invalid tracing directive: <directive>`.
    pub fn message(&self) -> (r: String)
        ensures
            match self {
                LoggerInitError::InvalidDirective(d) => r@ == "invalid tracing directive: "@ + d@,
            },
    {
        match self {
            LoggerInitError::InvalidDirective(d) => {
                let mut out = String::from_str("invalid tracing directive: ");
                out.append(d.as_str());
                out
            },
        }
    }
}

#[verifier::external_type_specification]
#[verifier::external_body]
pub struct ExEnvFilter(tracing_subscriber::filter::EnvFilter);

#[verifier::external_type_specification]
#[verifier::external_body]
pub struct ExDirective(tracing_subscriber::filter::Directive);

/// Whether `tracing_subscriber::EnvFilter::try_new` accepts the directives `dirs`.
pub uninterp spec fn filter_accepts(dirs: Seq<char>) -> bool;

/// Whether `tracing_subscriber` parses `text` as one filter directive.
pub uninterp spec fn directive_accepts(text: Seq<char>) -> bool;

/// `EnvFilter::try_new`: a filter, when the directives parse. Which texts
/// parse is named by `filter_accepts`.
#[verifier::external_body]
fn env_filter_try_new(dirs: &str) -> (r: Option<tracing_subscriber::filter::EnvFilter>)
    ensures
        r is Some <==> filter_accepts(dirs@),
{
    tracing_subscriber::filter::EnvFilter::try_new(dirs).ok()
}

/// `str::parse::<Directive>`: a directive, when the text parses. Which texts
/// parse is named by `directive_accepts`.
#[verifier::external_body]
fn parse_directive(text: &str) -> (r: Option<tracing_subscriber::filter::Directive>)
    ensures
        r is Some <==> directive_accepts(text@),
{
    text.parse::<tracing_subscriber::filter::Directive>().ok()
}

/// `EnvFilter::add_directive`; what the filter holds afterwards is not stated.
#[verifier::external_body]
fn add_directive(
    filter: tracing_subscriber::filter::EnvFilter,
    directive: tracing_subscriber::filter::Directive,
) -> (r: tracing_subscriber::filter::EnvFilter) {
    filter.add_directive(directive)
}

/// The directive text of one module level: `module=level`.
pub open spec fn module_directive(e: (String, String)) -> Seq<char> {
    e.0@ + "="@ + e.1@
}

/// The first module directive (in order) that does not parse.
pub open spec fn first_invalid_directive(levels: Seq<(String, String)>) -> Option<Seq<char>>
    decreases levels.len(),
{
    if levels.len() == 0 {
        None
    } else if !directive_accepts(module_directive(levels[0])) {
        Some(module_directive(levels[0]))
    } else {
        first_invalid_directive(levels.drop_first())
    }
}

/// The directive that makes the options unusable, if any: the default level
/// first, then the module levels in order.
pub open spec fn filter_error(options: LoggerOptions) -> Option<Seq<char>> {
    if !filter_accepts(options.default_level@) {
        Some(options.default_level@)
    } else {
        first_invalid_directive(options.levels())
    }
}

/// The rank of a level name, after trimming and ASCII lower-casing:
/// `trace` 0 up to `error` 4; anything else ranks above all of them.
pub open spec fn level_rank_of(level: Seq<char>) -> usize {
    let t = lower_all(trim(level));
    if t == "trace"@ {
        0
    } else if t == "debug"@ {
        1
    } else if t == "info"@ {
        2
    } else if t == "warn"@ {
        3
    } else if t == "error"@ {
        4
    } else {
        usize::MAX
    }
}

/// The rank of a level name.
pub fn level_rank(level: &str) -> (r: usize)
    ensures
        r == level_rank_of(level@),
{
    let chars = chars_of(level);
    let trimmed = trim_chars(chars.as_slice());
    let t = chars_lower(trimmed.as_slice());
    proof {
        reveal_strlit("trace");
        reveal_strlit("debug");
        reveal_strlit("info");
        reveal_strlit("warn");
        reveal_strlit("error");
    }
    let s = crate::text::string_of(t.as_slice());
    if crate::text::str_eq(s.as_str(), "trace") {
        0
    } else if crate::text::str_eq(s.as_str(), "debug") {
        1
    } else if crate::text::str_eq(s.as_str(), "info") {
        2
    } else if crate::text::str_eq(s.as_str(), "warn") {
        3
    } else if crate::text::str_eq(s.as_str(), "error") {
        4
    } else {
        usize::MAX
    }
}

/// One info record to emit: the context's fields (empty when unset), the
/// module name falling back to the target, and the message.
#[derive(Debug, Clone, PartialEq, Eq)]
pub struct LogRecord {
    pub target: String,
    pub request_id: String,
    pub user_id: String,
    pub module_name: String,
    pub message: String,
}

pub open spec fn or_empty(v: Option<String>) -> Seq<char> {
    match v {
        Some(s) => s@,
        None => Seq::empty(),
    }
}

/// Logger service: decides what gets logged under the configured options.
#[derive(Debug, Clone, PartialEq, Eq)]
pub struct LoggerService {
    pub options: LoggerOptions,
}

/// Whether a record at `level` for `target` passes: the target's module level,
/// or the default level, must not rank above it.
pub open spec fn passes(options: LoggerOptions, target: Seq<char>, level: Seq<char>) -> bool {
    let configured = match options.level_for(target) {
        Some(l) => l,
        None => options.default_level@,
    };
    level_rank_of(level) >= level_rank_of(configured)
}

/// A module's own level decides its records, whatever the default level: a
/// record passes exactly when its level ranks at or above the module's;
/// modules without a level of their own go by the default level.
pub proof fn lemma_module_level_overrides_default(options: LoggerOptions, target: Seq<char>, level: Seq<char>)
    ensures
        options.level_for(target) matches Some(own) ==> passes(options, target, level) == (level_rank_of(level)
            >= level_rank_of(own)),
        options.level_for(target) is None ==> passes(options, target, level) == (level_rank_of(level)
            >= level_rank_of(options.default_level@)),
{
}

/// The target of records logged without one.
pub open spec fn default_target() -> Seq<char> {
    "nivasa_http::logging"@
}

impl LoggerService {
    /// A service with `options`.
    pub fn new(options: LoggerOptions) -> (r: Self)
        ensures
            r.options == options,
    {
        LoggerService { options }
    }

    /// The configured options.
    pub fn options(&self) -> (r: &LoggerOptions)
        ensures
            *r == self.options,
    {
        &self.options
    }

    /// The filter of the default level and module levels, or the first
    /// directive that does not parse.
    pub fn env_filter(&self) -> (r: Result<tracing_subscriber::filter::EnvFilter, LoggerInitError>)
        ensures
            match r {
                Ok(_) => filter_error(self.options) is None,
                Err(LoggerInitError::InvalidDirective(d)) => filter_error(self.options) == Some(d@),
            },
    {
        let mut filter = match env_filter_try_new(self.options.default_level.as_str()) {
            Some(f) => f,
            None => {
                return Err(LoggerInitError::InvalidDirective(self.options.default_level.clone()));
            },
        };
        let levels = &self.options.module_levels;
        let ghost ls = self.options.levels();
        let mut i: usize = 0;
        assert(ls.skip(0) =~= ls);
        while i < levels.len()
            invariant
                i <= ls.len(),
                ls == levels@,
                ls == self.options.levels(),
                filter_accepts(self.options.default_level@),
                first_invalid_directive(ls) == first_invalid_directive(ls.skip(i as int)),
            decreases ls.len() - i,
        {
            assert(ls.skip(i as int).drop_first() =~= ls.skip(i + 1));
            assert(ls.skip(i as int)[0] == ls[i as int]);
            let mut directive = levels[i].0.clone();
            directive.append("=");
            directive.append(levels[i].1.as_str());
            proof {
                reveal_strlit("=");
            }
            assert(directive@ == module_directive(ls[i as int]));
            match parse_directive(directive.as_str()) {
                Some(d) => {
                    filter = add_directive(filter, d);
                },
                None => {
                    return Err(LoggerInitError::InvalidDirective(directive));
                },
            }
            i += 1;
        }
        assert(ls.skip(i as int) =~= Seq::<(String, String)>::empty());
        Ok(filter)
    }

    /// The output format a subscriber is built with, once the directives
    /// are known to be valid.
    pub fn subscriber_format(&self) -> (r: Result<LoggerFormat, LoggerInitError>)
        ensures
            match r {
                Ok(f) => filter_error(self.options) is None && f == self.options.format,
                Err(LoggerInitError::InvalidDirective(d)) => filter_error(self.options) == Some(d@),
            },
    {
        match self.env_filter() {
            Ok(_) => Ok(self.options.format),
            Err(e) => Err(e),
        }
    }

    /// Whether a record at `level` for `target` is logged.
    pub fn should_log(&self, target: &str, level: &str) -> (r: bool)
        ensures
            r == passes(self.options, target@, level@),
    {
        let configured = match crate::assoc::assoc_lookup(&self.options.module_levels, target) {
            Some(l) => l.as_str(),
            None => self.options.default_level.as_str(),
        };
        level_rank(level) >= level_rank(configured)
    }

    /// The info record for `target` to emit, or `None` when the levels drop it.
    pub fn info_with_target(&self, target: &str, context: &LogContext, message: &str) -> (r: Option<
        LogRecord,
    >)
        ensures
            r is Some <==> passes(self.options, target@, "info"@),
            r matches Some(rec) ==> rec.target@ == target@ && rec.request_id@ == or_empty(
                context.request_id,
            ) && rec.user_id@ == or_empty(context.user_id) && rec.message@ == message@
                && rec.module_name@ == match context.module_name {
                Some(m) => m@,
                None => target@,
            },
    {
        if !self.should_log(target, "info") {
            return None;
        }
        let request_id = match &context.request_id {
            Some(v) => v.clone(),
            None => String::new(),
        };
        let user_id = match &context.user_id {
            Some(v) => v.clone(),
            None => String::new(),
        };
        let module_name = match &context.module_name {
            Some(v) => v.clone(),
            None => target.to_owned(),
        };
        Some(LogRecord {
            target: target.to_owned(),
            request_id,
            user_id,
            module_name,
            message: message.to_owned(),
        })
    }

    /// The info record to emit under the service's own target.
    pub fn info(&self, context: &LogContext, message: &str) -> (r: Option<LogRecord>)
        ensures
            r is Some <==> passes(self.options, default_target(), "info"@),
            r matches Some(rec) ==> rec.target@ == default_target() && rec.message@ == message@,
    {
        proof {
            reveal_strlit("nivasa_http::logging");
        }
        self.info_with_target("nivasa_http::logging", context, message)
    }
}

impl Default for LoggerOptions {
    /// Not global, pretty output, an empty default level, no module levels.
    fn default() -> (r: Self)
        ensures
            !r.is_global,
            r.format == LoggerFormat::Pretty,
            r.default_level@.len() == 0,
            r.levels().len() == 0,
    {
        LoggerOptions {
            is_global: false,
            format: LoggerFormat::Pretty,
            default_level: String::new(),
            module_levels: Vec::new(),
        }
    }
}

impl Default for LoggerService {
    /// A service with the default options.
    fn default() -> (r: Self)
        ensures
            !r.options.is_global,
            r.options.format == LoggerFormat::Pretty,
            r.options.default_level@.len() == 0,
            r.options.levels().len() == 0,
    {
        LoggerService { options: LoggerOptions::default() }
    }
}

/// Marker provider type for bootstrap-time logger options metadata.
#[derive(Debug, Clone, Copy, Default, PartialEq, Eq, Hash)]
pub struct LoggerOptionsProvider;

/// The providers the logger module registers: the options provider and the service.
pub fn logger_provider_types() -> (r: Vec<core::any::TypeId>)
    ensures
        r@.len() == 2,
{
    let mut v: Vec<core::any::TypeId> = Vec::new();
    v.push(crate::throttling::type_id_of::<LoggerOptionsProvider>());
    v.push(crate::throttling::type_id_of::<LoggerService>());
    v
}

/// The providers the logger module exports: the service.
pub fn logger_export_types() -> (r: Vec<core::any::TypeId>)
    ensures
        r@.len() == 1,
{
    let mut v: Vec<core::any::TypeId> = Vec::new();
    v.push(crate::throttling::type_id_of::<LoggerService>());
    v
}

/// Dynamic module marker for structured logging.
#[derive(Debug, Clone, Copy, Default, PartialEq, Eq, Hash)]
pub struct LoggerModule;

impl LoggerModule {
    pub fn new() -> (r: Self) {
        LoggerModule
    }

    /// The root logger module: the service exported, both providers
    /// registered, global as the options say.
    pub fn for_root(options: LoggerOptions) -> (r: DynamicModule)
        ensures
            r.metadata.is_global == options.is_global,
            r.metadata.exports@.len() == 1,
            r.providers@.len() == 2,
    {
        DynamicModule {
            metadata: ModuleMetadata { exports: logger_export_types(), is_global: options.is_global },
            providers: logger_provider_types(),
        }
    }

    /// A feature logger module, assembled as the root one.
    pub fn for_feature(options: LoggerOptions) -> (r: DynamicModule)
        ensures
            r.metadata.is_global == options.is_global,
            r.metadata.exports@.len() == 1,
            r.providers@.len() == 2,
    {
        LoggerModule::for_root(options)
    }
}

} // verus!
