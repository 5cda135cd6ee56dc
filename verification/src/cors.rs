//! Transport-level CORS: the configured policy, the header values it
//! yields for a request, preflight answers, and the headers added to every
//! response.
use vstd::prelude::*;
use vstd::utf8::*;
use crate::body::Body;
use crate::headers::{value_text, valid_value, HeaderMap, HeaderValue};
use crate::response::{built_header, NivasaResponse, ResponseView};
use crate::text::{chars_eq_ignore_ascii_case, chars_of, eq_ignore_ascii_case, string_of, trim, trim_chars};
use crate::guards::strings_view;

verus! {

/// Texts joined with `sep` between them.
pub open spec fn join(parts: Seq<Seq<char>>, sep: Seq<char>) -> Seq<char>
    decreases parts.len(),
{
    if parts.len() == 0 {
        Seq::empty()
    } else if parts.len() == 1 {
        parts[0]
    } else {
        join(parts.drop_last(), sep) + sep + parts.last()
    }
}

/// The texts of `parts` joined with `sep` between them.
pub fn join_strings(parts: &[String], sep: &str) -> (r: String)
    ensures
        r@ == join(strings_view(parts@), sep@),
{
    let ghost ps = strings_view(parts@);
    let mut out = String::new();
    let mut i: usize = 0;
    while i < parts.len()
        invariant
            i <= parts@.len(),
            ps == strings_view(parts@),
            out@ == join(ps.take(i as int), sep@),
        decreases parts@.len() - i,
    {
        assert(ps.take(i + 1).drop_last() =~= ps.take(i as int));
        assert(ps[i as int] == parts@[i as int]@);
        if i > 0 {
            out.append(sep);
        }
        out.append(parts[i].as_str());
        proof {
            if i == 0 {
                assert(ps.take(1) =~= seq![ps[0]]);
            }
        }
        i += 1;
    }
    assert(ps.take(parts@.len() as int) =~= ps);
    out
}

/// The bytes a response header holds when the text `x` goes through
/// `HeaderValue::from_str` and back through `to_str` (`None` when either
/// refuses it).
pub open spec fn text_header_bytes(x: Seq<char>) -> Option<Seq<u8>> {
    if valid_value(encode_utf8(x)) {
        match value_text(encode_utf8(x)) {
            Some(t) => if valid_value(encode_utf8(t)) {
                Some(encode_utf8(t))
            } else {
                None
            },
            None => None,
        }
    } else {
        None
    }
}

/// The response with the header `name` (a canonical name) set to `value`
/// passed through `HeaderValue::from_str` and `to_str`; unchanged when
/// either refuses it.
pub fn put_text_header(response: NivasaResponse, name: &str, value: &str) -> (r: NivasaResponse)
    ensures
        r@.status == response@.status,
        r@.body == response@.body,
        forall|k: Seq<char>|
            #[trigger] r@.header(k) == if k == name@ && text_header_bytes(value@) is Some {
                text_header_bytes(value@)
            } else {
                response@.header(k)
            },
{
    let mut r = response;
    match HeaderValue::from_str(value) {
        Some(v) => match v.to_str() {
            Some(t) => r.set_known_valid_header(name, t.as_str()),
            None => {},
        },
        None => {},
    }
    r
}

/// A header text as `HeaderValue::from_str` takes it: kept when its bytes
/// are ones a header value may hold, `None` otherwise.
pub open spec fn header_ready(t: Option<Seq<char>>) -> Option<Seq<char>> {
    match t {
        Some(x) => if valid_value(encode_utf8(x)) {
            Some(x)
        } else {
            None
        },
        None => None,
    }
}

/// `text` when `HeaderValue::from_str` accepts it.
fn ready_text(text: String) -> (r: Option<String>)
    ensures
        r matches Some(s) ==> s@ == text@,
        (r is Some) == (header_ready(Some(text@)) is Some),
{
    match HeaderValue::from_str(text.as_str()) {
        Some(_) => Some(text),
        None => None,
    }
}

/// Configuration for transport-level CORS handling. Unset lists mean: any
/// origin (or the request's own, with credentials), and the methods and
/// headers the preflight asks for.
#[derive(Debug, Clone, PartialEq, Eq)]
pub struct CorsOptions {
    pub allowed_origins: Option<Vec<String>>,
    pub allowed_methods: Option<Vec<String>>,
    pub allowed_headers: Option<Vec<String>>,
    pub allow_credentials: bool,
}

pub open spec fn opt_strings(v: Option<Vec<String>>) -> Option<Seq<Seq<char>>> {
    match v {
        Some(l) => Some(strings_view(l@)),
        None => None,
    }
}

/// The `access-control-allow-origin` text for a request from `origin`.
pub open spec fn allow_origin_text(c: CorsOptions, origin: Option<Seq<char>>) -> Option<Seq<char>> {
    match opt_strings(c.allowed_origins) {
        Some(list) => match origin {
            Some(o) => if list.contains(o) {
                Some(o)
            } else {
                None
            },
            None => None,
        },
        None => if c.allow_credentials {
            origin
        } else {
            Some("*"@)
        },
    }
}

/// The `access-control-allow-methods` text, given the method a preflight
/// requests (the request header's text).
pub open spec fn allow_methods_text(c: CorsOptions, requested: Option<Seq<char>>) -> Option<Seq<char>> {
    match opt_strings(c.allowed_methods) {
        Some(list) => if list.len() == 0 {
            None
        } else {
            Some(join(list, ", "@))
        },
        None => match requested {
            None => None,
            Some(m) => {
                let t = trim(m);
                if t.len() == 0 {
                    None
                } else if eq_ignore_ascii_case(t, "OPTIONS"@) {
                    Some("OPTIONS"@)
                } else {
                    Some(t + ", OPTIONS"@)
                }
            },
        },
    }
}

/// The `access-control-allow-headers` text, given the headers a preflight
/// requests.
pub open spec fn allow_headers_text(c: CorsOptions, requested: Option<Seq<char>>) -> Option<Seq<char>> {
    match opt_strings(c.allowed_headers) {
        Some(list) => if list.len() == 0 {
            None
        } else {
            Some(join(list, ", "@))
        },
        None => requested,
    }
}

/// The `access-control-allow-credentials` text.
pub open spec fn allow_credentials_text(c: CorsOptions) -> Option<Seq<char>> {
    if c.allow_credentials {
        Some("true"@)
    } else {
        None
    }
}

fn contains_string(list: &Vec<String>, s: &str) -> (r: bool)
    ensures
        r == strings_view(list@).contains(s@),
{
    let mut i: usize = 0;
    while i < list.len()
        invariant
            i <= list@.len(),
            forall|j: int| 0 <= j < i ==> #[trigger] strings_view(list@)[j] != s@,
        decreases list@.len() - i,
    {
        if crate::text::str_eq(list[i].as_str(), s) {
            assert(strings_view(list@)[i as int] == s@);
            return true;
        }
        i += 1;
    }
    false
}

impl CorsOptions {
    /// No restrictions: any origin, the requested methods and headers, no credentials.
    pub fn permissive() -> (r: Self)
        ensures
            r.allowed_origins is None,
            r.allowed_methods is None,
            r.allowed_headers is None,
            !r.allow_credentials,
    {
        CorsOptions {
            allowed_origins: None,
            allowed_methods: None,
            allowed_headers: None,
            allow_credentials: false,
        }
    }

    /// Restrict allowed origins to a fixed allowlist.
    pub fn allow_origins(self, origins: Vec<String>) -> (r: Self)
        ensures
            r == (CorsOptions { allowed_origins: Some(origins), ..self }),
    {
        CorsOptions { allowed_origins: Some(origins), ..self }
    }

    /// Restrict the methods preflight answers allow.
    pub fn allow_methods(self, methods: Vec<String>) -> (r: Self)
        ensures
            r == (CorsOptions { allowed_methods: Some(methods), ..self }),
    {
        CorsOptions { allowed_methods: Some(methods), ..self }
    }

    /// Restrict the request headers preflight answers allow.
    pub fn allow_headers(self, headers: Vec<String>) -> (r: Self)
        ensures
            r == (CorsOptions { allowed_headers: Some(headers), ..self }),
    {
        CorsOptions { allowed_headers: Some(headers), ..self }
    }

    /// Whether credentialed requests are allowed.
    pub fn allow_credentials(self, allow: bool) -> (r: Self)
        ensures
            r == (CorsOptions { allow_credentials: allow, ..self }),
    {
        CorsOptions { allow_credentials: allow, ..self }
    }

    pub fn allow_origin_header_value(&self, request_origin: Option<&str>) -> (r: Option<String>)
        ensures
            match r {
                Some(s) => header_ready(allow_origin_text(*self, opt_text(request_origin))) == Some(s@),
                None => header_ready(allow_origin_text(*self, opt_text(request_origin))) is None,
            },
    {
        let text = self.allow_origin_text_value(request_origin);
        match text {
            Some(t) => ready_text(t),
            None => None,
        }
    }

    /// The `access-control-allow-origin` text before it is checked as a
    /// header value.
    fn allow_origin_text_value(&self, request_origin: Option<&str>) -> (r: Option<String>)
        ensures
            match r {
                Some(s) => allow_origin_text(*self, opt_text(request_origin)) == Some(s@),
                None => allow_origin_text(*self, opt_text(request_origin)) is None,
            },
    {
        proof {
            reveal_strlit("*");
        }
        match &self.allowed_origins {
            Some(list) => match request_origin {
                Some(o) => if contains_string(list, o) {
                    Some(o.to_owned())
                } else {
                    None
                },
                None => None,
            },
            None => if self.allow_credentials {
                match request_origin {
                    Some(o) => Some(o.to_owned()),
                    None => None,
                }
            } else {
                Some(String::from_str("*"))
            },
        }
    }

    pub fn allow_methods_header_value(&self, headers: &HeaderMap) -> (r: Option<String>)
        ensures
            match r {
                Some(s) => header_ready(allow_methods_text(*self, requested_text(*headers, "access-control-request-method"@)))
                    == Some(s@),
                None => header_ready(allow_methods_text(*self, requested_text(*headers, "access-control-request-method"@)))
                    is None,
            },
    {
        match self.allow_methods_text_value(headers) {
            Some(t) => ready_text(t),
            None => None,
        }
    }

    /// The `access-control-allow-methods` text before it is checked as a
    /// header value.
    fn allow_methods_text_value(&self, headers: &HeaderMap) -> (r: Option<String>)
        ensures
            match r {
                Some(s) => allow_methods_text(*self, requested_text(*headers, "access-control-request-method"@))
                    == Some(s@),
                None => allow_methods_text(*self, requested_text(*headers, "access-control-request-method"@))
                    is None,
            },
    {
        proof {
            reveal_strlit("access-control-request-method");
            reveal_strlit("OPTIONS");
            reveal_strlit(", OPTIONS");
            reveal_strlit(", ");
        }
        match &self.allowed_methods {
            Some(list) => if list.len() == 0 {
                None
            } else {
                Some(join_strings(list.as_slice(), ", "))
            },
            None => {
                let requested = match headers.text_of("access-control-request-method") {
                    Some(t) => t,
                    None => {
                        return None;
                    },
                };
                let chars = chars_of(requested.as_str());
                let t = trim_chars(chars.as_slice());
                if t.len() == 0 {
                    return None;
                }
                let options = chars_of("OPTIONS");
                if chars_eq_ignore_ascii_case(t.as_slice(), options.as_slice()) {
                    Some(String::from_str("OPTIONS"))
                } else {
                    let mut out = string_of(t.as_slice());
                    out.append(", OPTIONS");
                    Some(out)
                }
            },
        }
    }

    pub fn allow_headers_header_value(&self, headers: &HeaderMap) -> (r: Option<String>)
        ensures
            match r {
                Some(s) => header_ready(allow_headers_text(*self, requested_text(*headers, "access-control-request-headers"@)))
                    == Some(s@),
                None => header_ready(allow_headers_text(*self, requested_text(*headers, "access-control-request-headers"@)))
                    is None,
            },
    {
        match self.allow_headers_text_value(headers) {
            Some(t) => ready_text(t),
            None => None,
        }
    }

    /// The `access-control-allow-headers` text before it is checked as a
    /// header value.
    fn allow_headers_text_value(&self, headers: &HeaderMap) -> (r: Option<String>)
        ensures
            match r {
                Some(s) => allow_headers_text(*self, requested_text(*headers, "access-control-request-headers"@))
                    == Some(s@),
                None => allow_headers_text(*self, requested_text(*headers, "access-control-request-headers"@))
                    is None,
            },
    {
        proof {
            reveal_strlit("access-control-request-headers");
            reveal_strlit(", ");
        }
        match &self.allowed_headers {
            Some(list) => if list.len() == 0 {
                None
            } else {
                Some(join_strings(list.as_slice(), ", "))
            },
            None => headers.text_of("access-control-request-headers"),
        }
    }

    pub fn allow_credentials_header_value(&self) -> (r: Option<String>)
        ensures
            match r {
                Some(s) => allow_credentials_text(*self) == Some(s@),
                None => allow_credentials_text(*self) is None,
            },
    {
        proof {
            reveal_strlit("true");
        }
        if self.allow_credentials {
            Some(String::from_str("true"))
        } else {
            None
        }
    }
}

/// The text of the request header stored under the canonical `name`.
pub open spec fn requested_text(headers: HeaderMap, name: Seq<char>) -> Option<Seq<char>> {
    match headers.lookup(name) {
        Some(v) => value_text(v),
        None => None,
    }
}

pub open spec fn opt_text(o: Option<&str>) -> Option<Seq<char>> {
    match o {
        Some(s) => Some(s@),
        None => None,
    }
}

/// The header `k` of a response after the CORS headers of a request from
/// `origin` are added to `before`.
pub open spec fn cors_header(
    before: ResponseView,
    cors: Option<CorsOptions>,
    origin: Option<Seq<char>>,
    k: Seq<char>,
) -> Option<Seq<u8>> {
    match cors {
        None => before.header(k),
        Some(c) => {
            let cred = match allow_credentials_text(c) {
                Some(t) => text_header_bytes(t),
                None => None,
            };
            let orig = match allow_origin_text(c, origin) {
                Some(t) => text_header_bytes(t),
                None => None,
            };
            if k == "access-control-allow-credentials"@ && cred is Some {
                cred
            } else if k == "access-control-allow-origin"@ && orig is Some {
                orig
            } else {
                before.header(k)
            }
        },
    }
}

/// Add the CORS headers for a request from `request_origin`.
pub fn apply_cors_headers_to_response(
    response: NivasaResponse,
    cors: Option<&CorsOptions>,
    request_origin: Option<&str>,
) -> (r: NivasaResponse)
    ensures
        r@.status == response@.status,
        r@.body == response@.body,
        forall|k: Seq<char>|
            #[trigger] r@.header(k) == cors_header(
                response@,
                match cors {
                    Some(c) => Some(*c),
                    None => None,
                },
                opt_text(request_origin),
                k,
            ),
{
    let cors = match cors {
        None => {
            return response;
        },
        Some(c) => c,
    };
    proof {
        reveal_strlit("access-control-allow-origin");
        reveal_strlit("access-control-allow-credentials");
    }
    let ghost v0 = response@;
    let mut response = response;
    match cors.allow_origin_header_value(request_origin) {
        Some(value) => {
            response = put_text_header(response, "access-control-allow-origin", value.as_str());
        },
        None => {},
    }
    let ghost v1 = response@;
    match cors.allow_credentials_header_value() {
        Some(value) => {
            response = put_text_header(response, "access-control-allow-credentials", value.as_str());
        },
        None => {},
    }
    assert forall|k: Seq<char>|
        #[trigger] response@.header(k) == cors_header(v0, Some(*cors), opt_text(request_origin), k) by {
        assert("access-control-allow-origin"@.len() != "access-control-allow-credentials"@.len());
    }
    response
}

/// Whether a request is a CORS preflight: an `OPTIONS` request carrying
/// `origin` and `access-control-request-method`.
pub open spec fn is_preflight(headers: HeaderMap, method: Seq<char>) -> bool {
    method == "OPTIONS"@ && headers.lookup("origin"@) is Some && headers.lookup(
        "access-control-request-method"@,
    ) is Some
}

pub fn is_cors_preflight(headers: &HeaderMap, method: &str) -> (r: bool)
    ensures
        r == is_preflight(*headers, method@),
{
    proof {
        reveal_strlit("OPTIONS");
        reveal_strlit("origin");
        reveal_strlit("access-control-request-method");
    }
    let origin = String::from_str("origin");
    let requested = String::from_str("access-control-request-method");
    crate::text::str_eq(method, "OPTIONS") && headers.get_canonical(&origin).is_some()
        && headers.get_canonical(&requested).is_some()
}

/// The answer to a CORS preflight: `204` with an empty body, the CORS
/// headers of every response, and the allowed methods and headers.
pub open spec fn preflight_header(
    headers: HeaderMap,
    cors: Option<CorsOptions>,
    origin: Option<Seq<char>>,
    k: Seq<char>,
) -> Option<Seq<u8>> {
    let base = cors_header(
        ResponseView { status: 204, headers: Seq::empty(), body: crate::body::BodyView::Empty },
        cors,
        origin,
        k,
    );
    match cors {
        None => base,
        Some(c) => {
            let methods = match allow_methods_text(c, requested_text(headers, "access-control-request-method"@)) {
                Some(t) => text_header_bytes(t),
                None => None,
            };
            let allowed = match allow_headers_text(c, requested_text(headers, "access-control-request-headers"@)) {
                Some(t) => text_header_bytes(t),
                None => None,
            };
            if k == "access-control-allow-headers"@ && allowed is Some {
                allowed
            } else if k == "access-control-allow-methods"@ && methods is Some {
                methods
            } else {
                base
            }
        },
    }
}

pub fn build_cors_preflight_response(
    headers: &HeaderMap,
    cors: Option<&CorsOptions>,
    request_origin: Option<&str>,
) -> (r: NivasaResponse)
    ensures
        r@.status == 204,
        r@.body == crate::body::BodyView::Empty,
        forall|k: Seq<char>|
            #[trigger] r@.header(k) == preflight_header(
                *headers,
                match cors {
                    Some(c) => Some(*c),
                    None => None,
                },
                opt_text(request_origin),
                k,
            ),
{
    let response = NivasaResponse::new(204, Body::empty());
    let ghost v0 = response@;
    assert forall|k: Seq<char>| #[trigger] v0.header(k) == (ResponseView {
        status: 204,
        headers: Seq::empty(),
        body: crate::body::BodyView::Empty,
    }).header(k) by {
        assert(built_header(Seq::empty(), crate::body::BodyView::Empty, k) == crate::headers::lookup_header(
            Seq::<(Seq<char>, Seq<u8>)>::empty(),
            k,
        ));
    }
    let mut response = apply_cors_headers_to_response(response, cors, request_origin);
    let ghost v1 = response@;
    let c = match cors {
        None => {
            return response;
        },
        Some(c) => c,
    };
    proof {
        reveal_strlit("access-control-allow-methods");
        reveal_strlit("access-control-allow-headers");
        reveal_strlit("access-control-allow-credentials");
        reveal_strlit("access-control-allow-origin");
    }
    match c.allow_methods_header_value(headers) {
        Some(value) => {
            response = put_text_header(response, "access-control-allow-methods", value.as_str());
        },
        None => {},
    }
    let ghost v2 = response@;
    match c.allow_headers_header_value(headers) {
        Some(value) => {
            response = put_text_header(response, "access-control-allow-headers", value.as_str());
        },
        None => {},
    }
    let ghost v3 = response@;
    match c.allow_credentials_header_value() {
        Some(value) => {
            response = put_text_header(response, "access-control-allow-credentials", value.as_str());
        },
        None => {},
    }
    assert forall|k: Seq<char>|
        #[trigger] response@.header(k) == preflight_header(*headers, Some(*c), opt_text(request_origin), k) by {
        assert("access-control-allow-methods"@[21] != "access-control-allow-headers"@[21]);
        assert("access-control-allow-methods"@.len() != "access-control-allow-credentials"@.len());
        assert("access-control-allow-methods"@.len() != "access-control-allow-origin"@.len());
        assert("access-control-allow-headers"@.len() != "access-control-allow-credentials"@.len());
        assert("access-control-allow-headers"@.len() != "access-control-allow-origin"@.len());
        assert(cors_header(v0, Some(*c), opt_text(request_origin), k) == cors_header(
            ResponseView { status: 204, headers: Seq::empty(), body: crate::body::BodyView::Empty },
            Some(*c),
            opt_text(request_origin),
            k,
        ));
    }
    response
}

} // verus!
