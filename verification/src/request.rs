//! The request wrapper and the errors raised when extracting values from it.
use vstd::prelude::*;
use vstd::string::*;
use crate::body::{Body, BodyView};
use crate::headers::{HeaderMap, HeaderValue, canonical_header_name, valid_value};
use crate::controller::ClientIp;

verus! {

/// Errors raised when extracting values from a request.
#[derive(Debug, Clone, PartialEq, Eq)]
pub enum RequestExtractError {
    MissingBody,
    MissingPathParameters,
    MissingPathParameter { name: String },
    MissingQueryParameter { name: String },
    MissingHeader { name: String },
    InvalidBody(String),
    InvalidPathParameter { name: String, error: String },
    InvalidQueryParameter { name: String, error: String },
    InvalidHeader { name: String, error: String },
    InvalidQuery(String),
    MissingExtension { extension_type: &'static str },
}

impl RequestExtractError {
    /// The human-readable message of the error (what `Display` prints).
    pub open spec fn message_spec(&self) -> Seq<char> {
        match self {
            RequestExtractError::MissingBody => "request body is empty"@,
            RequestExtractError::MissingPathParameters => "request has no captured path parameters"@,
            RequestExtractError::MissingPathParameter { name } => "request is missing path parameter `"@
                + name@ + "`"@,
            RequestExtractError::MissingQueryParameter { name } =>
                "request is missing query parameter `"@ + name@ + "`"@,
            RequestExtractError::MissingHeader { name } => "request is missing header `"@ + name@
                + "`"@,
            RequestExtractError::InvalidBody(err) => "invalid request body: "@ + err@,
            RequestExtractError::InvalidPathParameter { name, error } => "invalid path parameter `"@
                + name@ + "`: "@ + error@,
            RequestExtractError::InvalidQueryParameter { name, error } =>
                "invalid query parameter `"@ + name@ + "`: "@ + error@,
            RequestExtractError::InvalidHeader { name, error } => "invalid header `"@ + name@
                + "`: "@ + error@,
            RequestExtractError::InvalidQuery(err) => "invalid query string: "@ + err@,
            RequestExtractError::MissingExtension { extension_type } =>
                "request is missing extension `"@ + extension_type@ + "`"@,
        }
    }

    /// The human-readable message of the error (what `Display` prints).
    pub fn message(&self) -> (r: String)
        ensures
            r@ == self.message_spec(),
    {
        match self {
            RequestExtractError::MissingBody => String::from_str("request body is empty"),
            RequestExtractError::MissingPathParameters => String::from_str(
                "request has no captured path parameters",
            ),
            RequestExtractError::MissingPathParameter { name } => {
                let mut m = String::from_str("request is missing path parameter `");
                m.append(name.as_str());
                m.append("`");
                m
            },
            RequestExtractError::MissingQueryParameter { name } => {
                let mut m = String::from_str("request is missing query parameter `");
                m.append(name.as_str());
                m.append("`");
                m
            },
            RequestExtractError::MissingHeader { name } => {
                let mut m = String::from_str("request is missing header `");
                m.append(name.as_str());
                m.append("`");
                m
            },
            RequestExtractError::InvalidBody(err) => {
                let mut m = String::from_str("invalid request body: ");
                m.append(err.as_str());
                m
            },
            RequestExtractError::InvalidPathParameter { name, error } => {
                let mut m = String::from_str("invalid path parameter `");
                m.append(name.as_str());
                m.append("`: ");
                m.append(error.as_str());
                m
            },
            RequestExtractError::InvalidQueryParameter { name, error } => {
                let mut m = String::from_str("invalid query parameter `");
                m.append(name.as_str());
                m.append("`: ");
                m.append(error.as_str());
                m
            },
            RequestExtractError::InvalidHeader { name, error } => {
                let mut m = String::from_str("invalid header `");
                m.append(name.as_str());
                m.append("`: ");
                m.append(error.as_str());
                m
            },
            RequestExtractError::InvalidQuery(err) => {
                let mut m = String::from_str("invalid query string: ");
                m.append(err.as_str());
                m
            },
            RequestExtractError::MissingExtension { extension_type } => {
                let mut m = String::from_str("request is missing extension `");
                m.append(extension_type);
                m.append("`");
                m
            },
        }
    }
}

/// Query-string wrapper for typed extraction.
#[derive(Debug, Clone, PartialEq, Eq)]
pub struct Query<T>(pub T);

impl<T> Query<T> {
    pub fn into_inner(self) -> (r: T)
        ensures
            r == self.0,
    {
        self.0
    }
}

/// JSON body wrapper for typed extraction and response conversion.
#[derive(Debug, Clone, PartialEq)]
pub struct Json<T>(pub T);

impl<T> Json<T> {
    pub fn into_inner(self) -> (r: T)
        ensures
            r == self.0,
    {
        self.0
    }
}

pub open spec fn pairs_view(v: Seq<(String, String)>) -> Seq<(Seq<char>, Seq<char>)> {
    v.map_values(|e: (String, String)| (e.0@, e.1@))
}

/// The value of the earliest pair named `name`.
pub open spec fn first_value(pairs: Seq<(Seq<char>, Seq<char>)>, name: Seq<char>) -> Option<Seq<char>>
    decreases pairs.len(),
{
    if pairs.len() == 0 {
        None
    } else if pairs[0].0 == name {
        Some(pairs[0].1)
    } else {
        first_value(pairs.drop_first(), name)
    }
}

/// The value of the latest pair named `name`.
pub open spec fn last_value(pairs: Seq<(Seq<char>, Seq<char>)>, name: Seq<char>) -> Option<Seq<char>>
    decreases pairs.len(),
{
    if pairs.len() == 0 {
        None
    } else if pairs.last().0 == name {
        Some(pairs.last().1)
    } else {
        last_value(pairs.drop_last(), name)
    }
}

/// A query value as typed extraction reads it: a JSON document when the
/// text parses as one, the text itself otherwise.
#[derive(Debug, Clone, PartialEq, Eq)]
pub enum QueryValue {
    Document(String),
    Text(String),
}

impl QueryValue {
    pub open spec fn text(self) -> Seq<char> {
        match self {
            QueryValue::Document(t) => t@,
            QueryValue::Text(t) => t@,
        }
    }

    /// The value is classified as JSON exactly when its text parses as JSON.
    pub open spec fn classified(self) -> bool {
        (self is Document) == (crate::dispatch::json_error_of(self.text()) is None)
    }
}

/// The values of `pairs` by name: each name once, with its last value.
pub open spec fn query_values_ok(r: Seq<(String, QueryValue)>, pairs: Seq<(Seq<char>, Seq<char>)>) -> bool {
    &&& forall|k: Seq<char>|
        (exists|i: int| 0 <= i < r.len() && (#[trigger] r[i]).0@ == k) <==> last_value(pairs, k) is Some
    &&& forall|i: int, j: int| 0 <= i < j < r.len() ==> (#[trigger] r[i]).0@ != (#[trigger] r[j]).0@
    &&& forall|i: int|
        0 <= i < r.len() ==> last_value(pairs, (#[trigger] r[i]).0@) == Some(r[i].1.text()) && r[i].1.classified()
}

proof fn lemma_last_value_take(ps: Seq<(Seq<char>, Seq<char>)>, i: int, k: Seq<char>)
    requires
        0 <= i < ps.len(),
    ensures
        last_value(ps.take(i + 1), k) == if ps[i].0 == k {
            Some(ps[i].1)
        } else {
            last_value(ps.take(i), k)
        },
{
    assert(ps.take(i + 1).drop_last() =~= ps.take(i));
    assert(ps.take(i + 1).last() == ps[i]);
}

/// Path parameters captured by route matching, in pattern order.
#[derive(Debug, Clone, PartialEq, Eq)]
pub struct RoutePathCaptures {
    entries: Vec<(String, String)>,
}

impl View for RoutePathCaptures {
    type V = Seq<(Seq<char>, Seq<char>)>;

    closed spec fn view(&self) -> Seq<(Seq<char>, Seq<char>)> {
        pairs_view(self.entries@)
    }
}

impl RoutePathCaptures {
    /// No captures (a static route).
    pub fn new() -> (r: Self)
        ensures
            r@.len() == 0,
    {
        RoutePathCaptures { entries: Vec::new() }
    }

    /// Record one captured segment.
    pub fn push(&mut self, name: &str, value: &str)
        ensures
            final(self)@ == old(self)@.push((name@, value@)),
    {
        self.entries.push((name.to_owned(), value.to_owned()));
        assert(self@ =~= old(self)@.push((name@, value@)));
    }

    /// An owned copy of the captures.
    pub(crate) fn duplicate(&self) -> (r: RoutePathCaptures)
        ensures
            r@ == self@,
    {
        let mut out: Vec<(String, String)> = Vec::new();
        let mut i: usize = 0;
        while i < self.entries.len()
            invariant
                i <= self.entries@.len(),
                out@.len() == i,
                forall|j: int| 0 <= j < i ==> (#[trigger] out@[j]).0@ == self.entries@[j].0@ && out@[j].1@ == self.entries@[j].1@,
            decreases self.entries@.len() - i,
        {
            let e = &self.entries[i];
            out.push((e.0.clone(), e.1.clone()));
            i += 1;
        }
        assert(pairs_view(out@) =~= pairs_view(self.entries@));
        RoutePathCaptures { entries: out }
    }

    pub fn len(&self) -> (r: usize)
        ensures
            r == self@.len(),
    {
        self.entries.len()
    }

    pub fn is_empty(&self) -> (r: bool)
        ensures
            r == (self@.len() == 0),
    {
        self.entries.len() == 0
    }

    /// The value captured for `name`.
    pub fn get(&self, name: &str) -> (r: Option<&str>)
        ensures
            match r {
                Some(v) => first_value(self@, name@) == Some(v@),
                None => first_value(self@, name@) is None,
            },
    {
        let key = name.to_owned();
        let mut i: usize = 0;
        assert(self@.skip(0) =~= self@);
        while i < self.entries.len()
            invariant
                i <= self.entries@.len(),
                key@ == name@,
                self@ == pairs_view(self.entries@),
                first_value(self@, name@) == first_value(self@.skip(i as int), name@),
            decreases self.entries@.len() - i,
        {
            assert(self@.skip(i as int).drop_first() =~= self@.skip(i + 1));
            if self.entries[i].0 == key {
                return Some(self.entries[i].1.as_str());
            }
            i += 1;
        }
        None
    }
}

/// The path and query that `http::Uri` parses out of a request target, or
/// `None` when the target is not a valid URI.
pub uninterp spec fn uri_path_and_query(uri: Seq<char>) -> Option<(Seq<char>, Option<Seq<char>>)>;

/// `http::Uri` parsing (`str::parse::<Uri>`), read back with `path` and `query`.
/// Its result is named by `uri_path_and_query`; which targets parse is not stated.
#[verifier::external_body]
fn parse_uri(uri: &str) -> (r: Option<(String, Option<String>)>)
    ensures
        match r {
            Some((p, q)) => uri_path_and_query(uri@) == Some(
                (
                    p@,
                    match q {
                        Some(q) => Some(q@),
                        None => None,
                    },
                ),
            ),
            None => uri_path_and_query(uri@) is None,
        },
{
    uri.parse::<http::Uri>().ok().map(|u| (u.path().to_owned(), u.query().map(|q| q.to_owned())))
}

/// The decoded (name, value) pairs that `form_urlencoded::parse` reads from a
/// query string.
pub uninterp spec fn form_pairs(query: Seq<u8>) -> Seq<(Seq<char>, Seq<char>)>;

/// `url::form_urlencoded::parse`, each pair taken as owned strings.
/// Its result is named by `form_pairs`; the decoding is not stated.
#[verifier::external_body]
fn parse_form_pairs(query: &[u8]) -> (r: Vec<(String, String)>)
    ensures
        pairs_view(r@) == form_pairs(query@),
{
    url::form_urlencoded::parse(query).map(|(k, v)| (k.into_owned(), v.into_owned())).collect()
}

pub struct RequestView {
    pub method: Seq<char>,
    pub path: Seq<char>,
    pub query: Option<Seq<char>>,
    pub headers: Seq<(Seq<char>, Seq<u8>)>,
    pub body: BodyView,
    pub path_params: Option<Seq<(Seq<char>, Seq<char>)>>,
    pub client_ip: Option<Seq<char>>,
}

/// Request wrapper used by the HTTP layer.
#[derive(Debug, Clone)]
pub struct NivasaRequest {
    method: String,
    path: String,
    query: Option<String>,
    headers: HeaderMap,
    body: Body,
    path_params: Option<RoutePathCaptures>,
    client_ip: Option<ClientIp>,
}

impl View for NivasaRequest {
    type V = RequestView;

    closed spec fn view(&self) -> RequestView {
        RequestView {
            method: self.method@,
            path: self.path@,
            query: match self.query {
                Some(q) => Some(q@),
                None => None,
            },
            headers: self.headers@,
            body: self.body@,
            path_params: match self.path_params {
                Some(p) => Some(p@),
                None => None,
            },
            client_ip: match self.client_ip {
                Some(ip) => Some(ip@),
                None => None,
            },
        }
    }
}

impl RequestView {
    /// The path a request target yields (`/` for a target that does not parse).
    pub open spec fn path_of(uri: Seq<char>) -> Seq<char> {
        match uri_path_and_query(uri) {
            Some(pq) => pq.0,
            None => seq!['/'],
        }
    }

    pub open spec fn query_of(uri: Seq<char>) -> Option<Seq<char>> {
        match uri_path_and_query(uri) {
            Some(pq) => pq.1,
            None => None,
        }
    }

    /// The header map entry of a caller-written name.
    pub open spec fn header(self, name: Seq<u8>) -> Option<Seq<u8>> {
        match canonical_header_name(name) {
            Some(n) => crate::headers::lookup_header(self.headers, n),
            None => None,
        }
    }

    /// The text of a header, when present and visible ASCII.
    pub open spec fn header_text(self, name: Seq<u8>) -> Option<Seq<char>> {
        match self.header(name) {
            Some(v) => crate::headers::value_text(v),
            None => None,
        }
    }

    /// The value of the last query pair named `name`.
    pub open spec fn query_param(self, name: Seq<char>) -> Option<Seq<char>> {
        match self.query {
            Some(q) => last_value(form_pairs(encode_utf8_q(q)), name),
            None => None,
        }
    }
}

/// The pair `last_value` finds: the last pair named `name`, when any is.
proof fn lemma_last_value_is_last_named(pairs: Seq<(Seq<char>, Seq<char>)>, name: Seq<char>)
    ensures
        (last_value(pairs, name) is Some) <==> (exists|i: int| 0 <= i < pairs.len() && #[trigger] pairs[i].0 == name),
        last_value(pairs, name) matches Some(v) ==> exists|i: int|
            0 <= i < pairs.len() && #[trigger] pairs[i] == (name, v) && forall|j: int|
                i < j < pairs.len() ==> #[trigger] pairs[j].0 != name,
    decreases pairs.len(),
{
    if pairs.len() > 0 {
        let init = pairs.drop_last();
        let n = pairs.len() - 1;
        lemma_last_value_is_last_named(init, name);
        assert(pairs[n] == pairs.last());
        if pairs.last().0 == name {
            assert(pairs[n] == (name, pairs.last().1));
        } else {
            if exists|i: int| 0 <= i < pairs.len() && #[trigger] pairs[i].0 == name {
                let i = choose|i: int| 0 <= i < pairs.len() && #[trigger] pairs[i].0 == name;
                assert(i < n);
                assert(init[i] == pairs[i]);
            }
            if exists|i: int| 0 <= i < init.len() && #[trigger] init[i].0 == name {
                let i = choose|i: int| 0 <= i < init.len() && #[trigger] init[i].0 == name;
                assert(pairs[i] == init[i]);
            }
            if last_value(pairs, name) is Some {
                let v = last_value(pairs, name)->0;
                let i = choose|i: int|
                    0 <= i < init.len() && #[trigger] init[i] == (name, v) && forall|j: int|
                        i < j < init.len() ==> #[trigger] init[j].0 != name;
                assert(pairs[i] == init[i]);
                assert forall|j: int| i < j < pairs.len() implies #[trigger] pairs[j].0 != name by {
                    if j < n {
                        assert(pairs[j] == init[j]);
                    }
                }
            }
        }
    }
}

impl RequestView {
    /// `query(name)` answers with the value of the last decoded query pair
    /// named `name`: it is `Some` exactly when some pair has that name (so a
    /// one-pair query `name=v` gives `v`), and no later pair has that name.
    pub proof fn lemma_query_param_is_last_named_pair(self, name: Seq<char>)
        ensures
            self.query is None ==> self.query_param(name) is None,
            self.query matches Some(q) ==> {
                let ps = form_pairs(encode_utf8_q(q));
                &&& (self.query_param(name) is Some) <==> (exists|i: int|
                    0 <= i < ps.len() && #[trigger] ps[i].0 == name)
                &&& self.query_param(name) matches Some(v) ==> exists|i: int|
                    0 <= i < ps.len() && #[trigger] ps[i] == (name, v) && forall|j: int|
                        i < j < ps.len() ==> #[trigger] ps[j].0 != name
            },
    {
        if let Some(q) = self.query {
            lemma_last_value_is_last_named(form_pairs(encode_utf8_q(q)), name);
        }
    }
}

pub open spec fn encode_utf8_q(q: Seq<char>) -> Seq<u8> {
    vstd::utf8::encode_utf8(q)
}

impl NivasaRequest {
    /// A request for `method` and the request target `uri` with `body`.
    pub fn new(method: &str, uri: &str, body: Body) -> (r: Self)
        ensures
            r@.method == method@,
            r@.path == RequestView::path_of(uri@),
            r@.query == RequestView::query_of(uri@),
            r@.headers.len() == 0,
            r@.body == body@,
            r@.path_params is None,
            r@.client_ip is None,
    {
        let (path, query) = match parse_uri(uri) {
            Some(pq) => pq,
            None => (String::from_str("/"), None),
        };
        proof {
            reveal_strlit("/");
        }
        NivasaRequest {
            method: method.to_owned(),
            path,
            query,
            headers: HeaderMap::new(),
            body,
            path_params: None,
            client_ip: None,
        }
    }

    /// Request method.
    pub fn method(&self) -> (r: &str)
        ensures
            r@ == self@.method,
    {
        self.method.as_str()
    }

    /// Path portion of the request target.
    pub fn path(&self) -> (r: &str)
        ensures
            r@ == self@.path,
    {
        self.path.as_str()
    }

    /// Raw query string of the request target.
    pub fn raw_query(&self) -> (r: Option<&str>)
        ensures
            match r {
                Some(q) => self@.query == Some(q@),
                None => self@.query is None,
            },
    {
        match &self.query {
            Some(q) => Some(q.as_str()),
            None => None,
        }
    }

    /// Request headers.
    pub fn headers(&self) -> (r: &HeaderMap)
        ensures
            r@ == self@.headers,
    {
        &self.headers
    }

    /// Look up a single header by name.
    pub fn header(&self, name: &str) -> (r: Option<&HeaderValue>)
        ensures
            match r {
                Some(v) => self@.header(name.spec_bytes()) == Some(v@),
                None => self@.header(name.spec_bytes()) is None,
            },
    {
        self.headers.get(name)
    }

    /// The text of a header, when present and visible ASCII.
    pub fn header_text(&self, name: &str) -> (r: Option<String>)
        ensures
            match r {
                Some(s) => self@.header_text(name.spec_bytes()) == Some(s@),
                None => self@.header_text(name.spec_bytes()) is None,
            },
    {
        self.headers.get_str(name)
    }

    /// Add or replace a header; an invalid name or value leaves the request unchanged.
    pub fn set_header(&mut self, name: &str, value: &str)
        ensures
            final(self)@.method == old(self)@.method,
            final(self)@.path == old(self)@.path,
            final(self)@.query == old(self)@.query,
            final(self)@.body == old(self)@.body,
            final(self)@.path_params == old(self)@.path_params,
            final(self)@.client_ip == old(self)@.client_ip,
            (canonical_header_name(name.spec_bytes()) is Some && valid_value(value.spec_bytes()))
                ==> forall|k: Seq<u8>|
                #[trigger] final(self)@.header(k) == if canonical_header_name(k)
                    == canonical_header_name(name.spec_bytes()) && canonical_header_name(k) is Some {
                    Some(value.spec_bytes())
                } else {
                    old(self)@.header(k)
                },
            !(canonical_header_name(name.spec_bytes()) is Some && valid_value(value.spec_bytes()))
                ==> final(self)@ == old(self)@,
    {
        let stored = self.headers.insert(name, value);
        proof {
            if stored {
                assert forall|k: Seq<u8>|
                    #[trigger] self@.header(k) == if canonical_header_name(k)
                        == canonical_header_name(name.spec_bytes()) && canonical_header_name(k) is Some {
                        Some(value.spec_bytes())
                    } else {
                        old(self)@.header(k)
                    } by {
                    if let Some(n) = canonical_header_name(k) {
                        assert(self.headers.lookup(n) == if Some(n) == canonical_header_name(
                            name.spec_bytes(),
                        ) {
                            Some(value.spec_bytes())
                        } else {
                            old(self).headers.lookup(n)
                        });
                    }
                }
            }
        }
    }

    /// Store `value` under the canonical header name `name` (a name of the
    /// library's own); an invalid value leaves the request unchanged.
    pub(crate) fn set_known_header(&mut self, name: &str, value: &str)
        ensures
            final(self)@ == (RequestView { headers: final(self)@.headers, ..old(self)@ }),
            forall|k: Seq<char>|
                #[trigger] crate::headers::lookup_header(final(self)@.headers, k) == if k == name@
                    && valid_value(value.spec_bytes()) {
                    Some(value.spec_bytes())
                } else {
                    crate::headers::lookup_header(old(self)@.headers, k)
                },
    {
        let ghost before = self.headers;
        match crate::headers::HeaderValue::from_str(value) {
            Some(v) => self.headers.insert_canonical(name.to_owned(), v),
            None => {},
        }
        assert forall|k: Seq<char>|
            #[trigger] crate::headers::lookup_header(self@.headers, k) == if k == name@ && valid_value(
                value.spec_bytes(),
            ) {
                Some(value.spec_bytes())
            } else {
                crate::headers::lookup_header(before@, k)
            } by {
            assert(self.headers.lookup(k) == crate::headers::lookup_header(self@.headers, k));
            assert(before.lookup(k) == crate::headers::lookup_header(before@, k));
        }
    }

    /// The decoded name-value pairs of the query string, in order.
    pub fn query_pairs(&self) -> (r: Vec<(String, String)>)
        ensures
            pairs_view(r@) == match self@.query {
                Some(q) => form_pairs(encode_utf8_q(q)),
                None => Seq::empty(),
            },
    {
        match &self.query {
            Some(q) => parse_form_pairs(q.as_str().as_bytes()),
            None => {
                let r: Vec<(String, String)> = Vec::new();
                assert(pairs_view(r@) =~= Seq::empty());
                r
            },
        }
    }

    /// The query's values by name, for typed extraction: each name once,
    /// with its last value, read as JSON when it parses as JSON.
    pub fn query_values(&self) -> (r: Vec<(String, QueryValue)>)
        ensures
            query_values_ok(
                r@,
                match self@.query {
                    Some(q) => form_pairs(encode_utf8_q(q)),
                    None => Seq::empty(),
                },
            ),
    {
        let pairs = self.query_pairs();
        let ghost ps = pairs_view(pairs@);
        let mut out: Vec<(String, QueryValue)> = Vec::new();
        let mut i: usize = 0;
        assert(ps.take(0) =~= Seq::<(Seq<char>, Seq<char>)>::empty());
        while i < pairs.len()
            invariant
                i <= pairs@.len(),
                ps == pairs_view(pairs@),
                query_values_ok(out@, ps.take(i as int)),
            decreases pairs@.len() - i,
        {
            let key = pairs[i].0.clone();
            let raw = pairs[i].1.clone();
            assert(ps[i as int] == (key@, raw@));
            let value = match crate::dispatch::json_syntax_error(raw.as_str()) {
                None => QueryValue::Document(raw),
                Some(_) => QueryValue::Text(raw),
            };
            let ghost before = out@;
            let mut j: usize = 0;
            let mut found: Option<usize> = None;
            while j < out.len()
                invariant
                    j <= out@.len(),
                    out@ == before,
                    found is None ==> forall|m: int| 0 <= m < j ==> (#[trigger] out@[m]).0@ != key@,
                    found matches Some(f) ==> f < out@.len() && out@[f as int].0@ == key@,
                ensures
                    out@ == before,
                    found is None ==> forall|m: int| 0 <= m < out@.len() ==> (#[trigger] out@[m]).0@ != key@,
                    found matches Some(f) ==> f < out@.len() && out@[f as int].0@ == key@,
                decreases out@.len() - j,
            {
                if out[j].0 == key {
                    found = Some(j);
                    break;
                }
                j += 1;
            }
            proof {
                assert forall|k: Seq<char>| #[trigger] last_value(ps.take(i + 1), k) == if ps[i as int].0 == k {
                    Some(ps[i as int].1)
                } else {
                    last_value(ps.take(i as int), k)
                } by {
                    lemma_last_value_take(ps, i as int, k);
                }
            }
            let ghost k0 = key@;
            let ghost v0 = value;
            assert(v0.text() == ps[i as int].1 && v0.classified());
            match found {
                Some(f) => {
                    out.set(f, (key, value));
                    assert(out@ == before.update(f as int, out@[f as int]));
                    assert forall|k: Seq<char>|
                        #![trigger last_value(ps.take(i + 1), k)]
                        (exists|m: int| 0 <= m < out@.len() && (#[trigger] out@[m]).0@ == k) <==> last_value(
                            ps.take(i + 1),
                            k,
                        ) is Some by {
                        if k == k0 {
                            assert(out@[f as int].0@ == k);
                        } else {
                            if exists|m: int| 0 <= m < before.len() && (#[trigger] before[m]).0@ == k {
                                let m = choose|m: int| 0 <= m < before.len() && (#[trigger] before[m]).0@ == k;
                                assert(m != f);
                                assert(out@[m] == before[m]);
                            }
                            if exists|m: int| 0 <= m < out@.len() && (#[trigger] out@[m]).0@ == k {
                                let m = choose|m: int| 0 <= m < out@.len() && (#[trigger] out@[m]).0@ == k;
                                assert(m != f);
                                assert(before[m] == out@[m]);
                            }
                        }
                    }
                    assert forall|a: int, b: int| 0 <= a < b < out@.len() implies (#[trigger] out@[a]).0@
                        != (#[trigger] out@[b]).0@ by {
                        assert(before[a].0@ != before[b].0@);
                    }
                    assert forall|m: int| 0 <= m < out@.len() implies last_value(ps.take(i + 1), (#[trigger] out@[m]).0@)
                        == Some(out@[m].1.text()) && out@[m].1.classified() by {
                        if m != f {
                            assert(out@[m] == before[m]);
                            assert(before[m].0@ != before[f as int].0@);
                        }
                    }
                },
                None => {
                    out.push((key, value));
                    assert(out@ == before.push(out@[before.len() as int]));
                    assert forall|k: Seq<char>|
                        #![trigger last_value(ps.take(i + 1), k)]
                        (exists|m: int| 0 <= m < out@.len() && (#[trigger] out@[m]).0@ == k) <==> last_value(
                            ps.take(i + 1),
                            k,
                        ) is Some by {
                        if k == k0 {
                            assert(out@[before.len() as int].0@ == k);
                        } else {
                            if exists|m: int| 0 <= m < before.len() && (#[trigger] before[m]).0@ == k {
                                let m = choose|m: int| 0 <= m < before.len() && (#[trigger] before[m]).0@ == k;
                                assert(out@[m] == before[m]);
                            }
                            if exists|m: int| 0 <= m < out@.len() && (#[trigger] out@[m]).0@ == k {
                                let m = choose|m: int| 0 <= m < out@.len() && (#[trigger] out@[m]).0@ == k;
                                assert(m < before.len());
                                assert(before[m] == out@[m]);
                            }
                        }
                    }
                    assert forall|a: int, b: int| 0 <= a < b < out@.len() implies (#[trigger] out@[a]).0@
                        != (#[trigger] out@[b]).0@ by {
                        if b < before.len() {
                            assert(before[a].0@ != before[b].0@);
                        } else {
                            assert(before[a].0@ != k0);
                        }
                    }
                    assert forall|m: int| 0 <= m < out@.len() implies last_value(ps.take(i + 1), (#[trigger] out@[m]).0@)
                        == Some(out@[m].1.text()) && out@[m].1.classified() by {
                        if m < before.len() {
                            assert(out@[m] == before[m]);
                            assert(before[m].0@ != k0);
                        }
                    }
                },
            }
            i += 1;
        }
        assert(ps.take(pairs@.len() as int) =~= ps);
        out
    }

    /// Look up a single query parameter by name (the last occurrence wins).
    pub fn query(&self, name: &str) -> (r: Option<String>)
        ensures
            match r {
                Some(v) => self@.query_param(name@) == Some(v@),
                None => self@.query_param(name@) is None,
            },
    {
        let q = match &self.query {
            None => {
                return None;
            },
            Some(q) => q,
        };
        let pairs = parse_form_pairs(q.as_str().as_bytes());
        let key = name.to_owned();
        let ghost ps = pairs_view(pairs@);
        let mut found: Option<String> = None;
        let mut i: usize = 0;
        assert(ps.take(0) =~= Seq::<(Seq<char>, Seq<char>)>::empty());
        while i < pairs.len()
            invariant
                i <= pairs@.len(),
                key@ == name@,
                ps == pairs_view(pairs@),
                match found {
                    Some(v) => last_value(ps.take(i as int), name@) == Some(v@),
                    None => last_value(ps.take(i as int), name@) is None,
                },
            decreases pairs@.len() - i,
        {
            assert(ps.take(i + 1).drop_last() =~= ps.take(i as int));
            if pairs[i].0 == key {
                found = Some(pairs[i].1.clone());
            }
            i += 1;
        }
        assert(ps.take(pairs@.len() as int) =~= ps);
        found
    }

    /// An owned copy of the request.
    pub(crate) fn duplicate(&self) -> (r: NivasaRequest)
        ensures
            r@ == self@,
    {
        NivasaRequest {
            method: self.method.clone(),
            path: self.path.clone(),
            query: match &self.query {
                Some(q) => Some(q.clone()),
                None => None,
            },
            headers: self.headers.duplicate(),
            body: self.body.duplicate(),
            path_params: match &self.path_params {
                Some(p) => Some(p.duplicate()),
                None => None,
            },
            client_ip: match &self.client_ip {
                Some(ip) => Some(ClientIp::new(ip.as_str())),
                None => None,
            },
        }
    }

    /// A value of type `T` taken from this request.
    pub fn extract<T: FromRequest>(&self) -> (r: Result<T, RequestExtractError>)
        ensures
            call_ensures(T::from_request, (self,), r),
    {
        T::from_request(self)
    }

    /// Request body.
    pub fn body(&self) -> (r: &Body)
        ensures
            r@ == self@.body,
    {
        &self.body
    }

    /// Replace the request body.
    pub fn set_body(&mut self, body: Body)
        ensures
            final(self)@ == (RequestView { body: body@, ..old(self)@ }),
    {
        self.body = body;
    }

    /// Attach captured path parameters.
    pub fn set_path_params(&mut self, path_params: RoutePathCaptures)
        ensures
            final(self)@ == (RequestView { path_params: Some(path_params@), ..old(self)@ }),
    {
        self.path_params = Some(path_params);
    }

    /// Clear any attached path parameters.
    pub fn clear_path_params(&mut self)
        ensures
            final(self)@ == (RequestView { path_params: None, ..old(self)@ }),
    {
        self.path_params = None;
    }

    /// The captured path parameters, if any.
    pub fn path_params(&self) -> (r: Option<&RoutePathCaptures>)
        ensures
            match r {
                Some(p) => self@.path_params == Some(p@),
                None => self@.path_params is None,
            },
    {
        match &self.path_params {
            Some(p) => Some(p),
            None => None,
        }
    }

    /// A captured path parameter by name.
    pub fn path_param(&self, name: &str) -> (r: Option<&str>)
        ensures
            match r {
                Some(v) => self@.path_params is Some && first_value(self@.path_params->0, name@)
                    == Some(v@),
                None => self@.path_params is None || first_value(self@.path_params->0, name@) is None,
            },
    {
        match &self.path_params {
            Some(p) => p.get(name),
            None => None,
        }
    }

    /// Attach the client address recorded by the transport.
    pub fn set_client_ip(&mut self, ip: ClientIp)
        ensures
            final(self)@ == (RequestView { client_ip: Some(ip@), ..old(self)@ }),
    {
        self.client_ip = Some(ip);
    }

    /// The client address recorded by the transport, if any.
    pub fn client_ip(&self) -> (r: Option<&ClientIp>)
        ensures
            match r {
                Some(ip) => self@.client_ip == Some(ip@),
                None => self@.client_ip is None,
            },
    {
        match &self.client_ip {
            Some(ip) => Some(ip),
            None => None,
        }
    }
}

/// Values that can be taken from a request.
pub trait FromRequest: Sized {
    fn from_request(request: &NivasaRequest) -> Result<Self, RequestExtractError>;
}

impl FromRequest for NivasaRequest {
    /// The request itself.
    fn from_request(request: &NivasaRequest) -> (r: Result<Self, RequestExtractError>)
        ensures
            r matches Ok(x) && x@ == request@,
    {
        Ok(request.duplicate())
    }
}

impl FromRequest for RoutePathCaptures {
    /// The captured path parameters; an error when route matching attached none.
    fn from_request(request: &NivasaRequest) -> (r: Result<Self, RequestExtractError>)
        ensures
            match request@.path_params {
                Some(p) => r matches Ok(x) && x@ == p,
                None => r == Err::<RoutePathCaptures, RequestExtractError>(RequestExtractError::MissingPathParameters),
            },
    {
        match request.path_params() {
            Some(p) => Ok(p.duplicate()),
            None => Err(RequestExtractError::MissingPathParameters),
        }
    }
}

impl FromRequest for HeaderMap {
    /// All request headers.
    fn from_request(request: &NivasaRequest) -> (r: Result<Self, RequestExtractError>)
        ensures
            r matches Ok(x) && x@ == request@.headers,
    {
        Ok(request.headers().duplicate())
    }
}

impl FromRequest for Body {
    /// The request body.
    fn from_request(request: &NivasaRequest) -> (r: Result<Self, RequestExtractError>)
        ensures
            r matches Ok(x) && x@ == request@.body,
    {
        Ok(request.body().duplicate())
    }
}

impl FromRequest for Vec<u8> {
    /// The bytes of the request body.
    fn from_request(request: &NivasaRequest) -> (r: Result<Self, RequestExtractError>)
        ensures
            r matches Ok(x) && x@ == request@.body.bytes(),
    {
        Ok(request.body().as_bytes())
    }
}

/// The text a request body reads as: nothing for an empty body, the text of
/// a text, HTML or JSON body, and bytes decoded as UTF-8; for bytes that are
/// not UTF-8, the decoding error's message.
pub open spec fn body_text(body: BodyView) -> Result<Seq<char>, Seq<char>> {
    match body {
        BodyView::Empty => Ok(Seq::empty()),
        BodyView::Text(t) => Ok(t),
        BodyView::Html(t) => Ok(t),
        BodyView::Json(t) => Ok(t),
        BodyView::Bytes(b) => if vstd::utf8::valid_utf8(b) {
            Ok(vstd::utf8::decode_utf8(b))
        } else {
            Err(crate::dispatch::utf8_error_text(b))
        },
    }
}

impl FromRequest for String {
    /// The body as text; an invalid-body error for bytes that are not UTF-8.
    fn from_request(request: &NivasaRequest) -> (r: Result<Self, RequestExtractError>)
        ensures
            match body_text(request@.body) {
                Ok(t) => r matches Ok(x) && x@ == t,
                Err(m) => r matches Err(RequestExtractError::InvalidBody(e)) && e@ == m,
            },
    {
        match request.body() {
            Body::Empty => Ok(String::new()),
            Body::Text(t) => Ok(t.clone()),
            Body::Html(t) => Ok(t.clone()),
            Body::Json(t) => Ok(t.clone()),
            Body::Bytes(b) => match crate::dispatch::utf8_string(b.as_slice()) {
                Ok(t) => Ok(t),
                Err(m) => Err(RequestExtractError::InvalidBody(m)),
            },
        }
    }
}

} // verus!
