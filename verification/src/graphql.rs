//! GraphQL over HTTP: the response envelope, the answers of the endpoint,
//! the playground page, and the routes a GraphQL module registers.
use vstd::prelude::*;
use crate::body::{Body, BodyView};
use crate::cors::join;
use crate::exception::{json_quoted, json_string};
use crate::response::{built_header, NivasaResponse, ResponseView};

verus! {

/// `value` with `&`, `<`, `>`, `"` and `'` replaced by their HTML entities.
pub open spec fn html_escaped(s: Seq<char>) -> Seq<char>
    decreases s.len(),
{
    if s.len() == 0 {
        Seq::empty()
    } else {
        let c = s.last();
        html_escaped(s.drop_last()) + if c == '&' {
            "&amp;"@
        } else if c == '<' {
            "&lt;"@
        } else if c == '>' {
            "&gt;"@
        } else if c == '"' {
            "&quot;"@
        } else if c == '\'' {
            "&#39;"@
        } else {
            seq![c]
        }
    }
}

/// Escape text for HTML.
pub fn html_escape(value: &str) -> (r: String)
    ensures
        r@ == html_escaped(value@),
{
    proof {
        reveal_strlit("&amp;");
        reveal_strlit("&lt;");
        reveal_strlit("&gt;");
        reveal_strlit("&quot;");
        reveal_strlit("&#39;");
    }
    let chars = crate::text::chars_of(value);
    let mut out = String::new();
    let mut i: usize = 0;
    while i < chars.len()
        invariant
            i <= chars@.len(),
            chars@ == value@,
            out@ == html_escaped(chars@.take(i as int)),
        decreases chars@.len() - i,
    {
        let ch = chars[i];
        if ch == '&' {
            out.append("&amp;");
        } else if ch == '<' {
            out.append("&lt;");
        } else if ch == '>' {
            out.append("&gt;");
        } else if ch == '"' {
            out.append("&quot;");
        } else if ch == '\'' {
            out.append("&#39;");
        } else {
            crate::text::string_push(&mut out, ch);
        }
        assert(chars@.take(i + 1).drop_last() =~= chars@.take(i as int));
        i += 1;
    }
    assert(chars@.take(chars@.len() as int) =~= chars@);
    out
}

/// The playground page for `title`, posting queries to `endpoint`: the
/// title (escaped) in the page title and heading, the endpoint (escaped) in
/// the description, and the endpoint as a JSON string in the script.
pub open spec fn playground_page(title: Seq<char>, endpoint: Seq<char>) -> Seq<char> {
    PAGE_HEAD@ + html_escaped(title) + PAGE_STYLE@ + html_escaped(title) + PAGE_INTRO@
        + html_escaped(endpoint) + PAGE_CONTROLS@ + json_quoted(endpoint) + PAGE_SCRIPT@
}

/// The HTML of the GraphQL playground.
pub fn graphql_playground_html(title: &str, endpoint_path: &str) -> (r: String)
    ensures
        r@ == playground_page(title@, endpoint_path@),
{
    let t = html_escape(title);
    let shown = html_escape(endpoint_path);
    let endpoint = json_string(endpoint_path);
    let mut out = String::from_str(PAGE_HEAD);
    out.append(t.as_str());
    out.append(PAGE_STYLE);
    out.append(t.as_str());
    out.append(PAGE_INTRO);
    out.append(shown.as_str());
    out.append(PAGE_CONTROLS);
    out.append(endpoint.as_str());
    out.append(PAGE_SCRIPT);
    out
}

pub const PAGE_HEAD: &'static str = "<!doctype html>\n<html lang=\"en\">\n<head>\n  <meta charset=\"utf-8\">\n  <meta name=\"viewport\" content=\"width=device-width, initial-scale=1\">\n  <title>";

pub const PAGE_STYLE: &'static str = "</title>\n  <style>\n    :root {\n      color-scheme: light;\n      --bg: #f5f7fb;\n      --panel: #ffffff;\n      --border: #d6dbea;\n      --ink: #0f172a;\n      --muted: #475569;\n      --accent: #1d4ed8;\n    }\n    body {\n      margin: 0;\n      font-family: Inter, ui-sans-serif, system-ui, -apple-system, BlinkMacSystemFont, \"Segoe UI\", sans-serif;\n      background: linear-gradient(180deg, #eef2ff 0%, var(--bg) 100%);\n      color: var(--ink);\n    }\n    main {\n      max-width: 960px;\n      margin: 0 auto;\n      padding: 32px 20px 48px;\n    }\n    .card {\n      background: var(--panel);\n      border: 1px solid var(--border);\n      border-radius: 18px;\n      box-shadow: 0 20px 45px rgba(15, 23, 42, 0.08);\n      overflow: hidden;\n    }\n    header {\n      padding: 24px 24px 16px;\n      border-bottom: 1px solid var(--border);\n    }\n    h1 {\n      margin: 0;\n      font-size: 28px;\n    }\n    p {\n      margin: 8px 0 0;\n      color: var(--muted);\n    }\n    .content {\n      display: grid;\n      gap: 16px;\n      padding: 24px;\n    }\n    textarea {\n      width: 100%;\n      min-height: 240px;\n      border: 1px solid var(--border);\n      border-radius: 14px;\n      padding: 16px;\n      font: inherit;\n      resize: vertical;\n      box-sizing: border-box;\n    }\n    button {\n      justify-self: start;\n      border: 0;\n      border-radius: 999px;\n      padding: 12px 18px;\n      font: inherit;\n      font-weight: 700;\n      background: var(--accent);\n      color: white;\n      cursor: pointer;\n    }\n    pre {\n      margin: 0;\n      padding: 16px;\n      border-radius: 14px;\n      background: #0f172a;\n      color: #e2e8f0;\n      overflow: auto;\n    }\n  </style>\n</head>\n<body>\n  <main>\n    <section class=\"card\">\n      <header>\n        <h1>";

pub const PAGE_INTRO: &'static str = "</h1>\n        <p>GraphQL playground for ";

pub const PAGE_CONTROLS: &'static str = "</p>\n      </header>\n      <div class=\"content\">\n        <textarea id=\"query\">query Demo { __typename }</textarea>\n        <button id=\"run\">Run query</button>\n        <pre id=\"result\">{\n  \"hint\": \"Run a query to see the JSON response\"\n}</pre>\n      </div>\n    </section>\n  </main>\n  <script>\n    const endpoint = ";

pub const PAGE_SCRIPT: &'static str = ";\n    const query = document.getElementById(\"query\");\n    const run = document.getElementById(\"run\");\n    const result = document.getElementById(\"result\");\n\n    run.addEventListener(\"click\", async () => {\n      const response = await fetch(endpoint, {\n        method: \"POST\",\n        headers: { \"content-type\": \"application/json\" },\n        body: JSON.stringify({ query: query.value })\n      });\n      result.textContent = await response.text();\n    });\n  </script>\n</body>\n</html>";


/// A GraphQL request envelope: the query, and optionally the operation to
/// run, its variables and extensions (each a JSON document, as text).
#[derive(Debug, Clone, PartialEq, Eq)]
pub struct GraphQLRequest {
    pub query: String,
    pub operation_name: Option<String>,
    pub variables: Option<String>,
    pub extensions: Option<String>,
}

/// GraphQL execution error: a message and optional extensions (a JSON document).
#[derive(Debug, Clone, PartialEq, Eq)]
pub struct GraphQLError {
    pub message: String,
    pub extensions: Option<String>,
}

impl GraphQLError {
    pub fn new(message: &str) -> (r: Self)
        ensures
            r.message@ == message@,
            r.extensions is None,
    {
        GraphQLError { message: message.to_owned(), extensions: None }
    }
}

/// The JSON object of an error, keys in the order `serde_json` writes them.
pub open spec fn error_json(e: GraphQLError) -> Seq<char> {
    "{"@ + match e.extensions {
        Some(x) => "\"extensions\":"@ + x@ + ","@,
        None => Seq::empty(),
    } + "\"message\":"@ + json_quoted(e.message@) + "}"@
}

pub open spec fn errors_json(es: Seq<GraphQLError>) -> Seq<Seq<char>> {
    es.map_values(|e: GraphQLError| error_json(e))
}

/// GraphQL HTTP response envelope: optional data (a JSON document) and errors.
#[derive(Debug, Clone, PartialEq, Eq)]
pub struct GraphQLResponse {
    pub data: Option<String>,
    pub errors: Vec<GraphQLError>,
}

/// The JSON object of a response: `data` when present, `errors` when any.
pub open spec fn response_json(r: GraphQLResponse) -> Seq<char> {
    let data = match r.data {
        Some(d) => "\"data\":"@ + d@,
        None => Seq::empty(),
    };
    let errors = if r.errors@.len() == 0 {
        Seq::empty()
    } else {
        (if r.data is Some {
            ","@
        } else {
            Seq::empty()
        }) + "\"errors\":["@ + join(errors_json(r.errors@), ","@) + "]"@
    };
    "{"@ + data + errors + "}"@
}

fn error_to_json(e: &GraphQLError) -> (r: String)
    ensures
        r@ == error_json(*e),
{
    proof {
        reveal_strlit("{");
        reveal_strlit("}");
        reveal_strlit(",");
        reveal_strlit("\"extensions\":");
        reveal_strlit("\"message\":");
    }
    let mut out = String::from_str("{");
    match &e.extensions {
        Some(x) => {
            out.append("\"extensions\":");
            out.append(x.as_str());
            out.append(",");
        },
        None => {},
    }
    out.append("\"message\":");
    let m = json_string(e.message.as_str());
    out.append(m.as_str());
    out.append("}");
    out
}

impl GraphQLResponse {
    /// A response with `data` and no errors.
    pub fn data(data: &str) -> (r: Self)
        ensures
            r.data matches Some(d) && d@ == data@,
            r.errors@.len() == 0,
    {
        GraphQLResponse { data: Some(data.to_owned()), errors: Vec::new() }
    }

    /// A response with one error and no data.
    pub fn error(message: &str) -> (r: Self)
        ensures
            r.data is None,
            r.errors@.len() == 1,
            r.errors@[0].message@ == message@,
            r.errors@[0].extensions is None,
    {
        GraphQLResponse { data: None, errors: vec![GraphQLError::new(message)] }
    }

    /// The serialized envelope.
    pub fn into_json(&self) -> (r: String)
        ensures
            r@ == response_json(*self),
    {
        proof {
            reveal_strlit("{");
            reveal_strlit("}");
            reveal_strlit("]");
            reveal_strlit(",");
            reveal_strlit("\"data\":");
            reveal_strlit("\"errors\":[");
        }
        let mut out = String::from_str("{");
        match &self.data {
            Some(d) => {
                out.append("\"data\":");
                out.append(d.as_str());
            },
            None => {},
        }
        if self.errors.len() > 0 {
            if self.data.is_some() {
                out.append(",");
            }
            out.append("\"errors\":[");
            let ghost es = errors_json(self.errors@);
            let ghost prefix = out@;
            let mut i: usize = 0;
            while i < self.errors.len()
                invariant
                    i <= self.errors@.len(),
                    es == errors_json(self.errors@),
                    out@ == prefix + join(es.take(i as int), ","@),
                decreases self.errors@.len() - i,
            {
                assert(es.take(i + 1).drop_last() =~= es.take(i as int));
                assert(es[i as int] == error_json(self.errors@[i as int]));
                if i > 0 {
                    out.append(",");
                }
                let e = error_to_json(&self.errors[i]);
                out.append(e.as_str());
                proof {
                    if i == 0 {
                        assert(es.take(1) =~= seq![es[0]]);
                    }
                }
                i += 1;
            }
            assert(es.take(self.errors@.len() as int) =~= es);
            out.append("]");
        }
        out.append("}");
        out
    }
}

/// The answer of the endpoint to a request it could not read: `400` with
/// the reason as the one error.
pub fn graphql_bad_request(message: &str) -> (r: NivasaResponse)
    ensures
        r@.status == 400,
        r@.body == BodyView::Json("{\"errors\":[{\"message\":"@ + json_quoted(message@) + "}]}"@),
{
    proof {
        reveal_strlit("{\"errors\":[{\"message\":");
        reveal_strlit("}]}");
        reveal_strlit("{");
        reveal_strlit("}");
        reveal_strlit("]");
        reveal_strlit("\"errors\":[");
        reveal_strlit("\"message\":");
    }
    let response = GraphQLResponse::error(message);
    let text = response.into_json();
    let ghost es = errors_json(response.errors@);
    assert(es.len() == 1);
    assert(join(es, ","@) == es[0]);
    assert(text@ =~= "{\"errors\":[{\"message\":"@ + json_quoted(message@) + "}]}"@);
    NivasaResponse::new(400, Body::json(text.as_str()))
}


/// The answer of the endpoint to an executed query: `200` with the envelope.
pub fn graphql_ok(response: &GraphQLResponse) -> (r: NivasaResponse)
    ensures
        r@.status == 200,
        r@.body == BodyView::Json(response_json(*response)),
        forall|k: Seq<char>|
            #[trigger] r@.header(k) == built_header(Seq::empty(), BodyView::Json(response_json(*response)), k),
{
    let text = response.into_json();
    NivasaResponse::json(text.as_str())
}

/// The playground page a GraphQL module serves: as `playground_page`, with
/// a shorter script.
pub open spec fn module_playground_page(title: Seq<char>, endpoint: Seq<char>) -> Seq<char> {
    PAGE_HEAD@ + html_escaped(title) + PAGE_STYLE@ + html_escaped(title) + PAGE_INTRO@
        + html_escaped(endpoint) + PAGE_CONTROLS@ + json_quoted(endpoint) + MODULE_PAGE_SCRIPT@
}

pub fn module_playground_html(title: &str, endpoint_path: &str) -> (r: String)
    ensures
        r@ == module_playground_page(title@, endpoint_path@),
{
    let t = html_escape(title);
    let shown = html_escape(endpoint_path);
    let endpoint = json_string(endpoint_path);
    let mut out = String::from_str(PAGE_HEAD);
    out.append(t.as_str());
    out.append(PAGE_STYLE);
    out.append(t.as_str());
    out.append(PAGE_INTRO);
    out.append(shown.as_str());
    out.append(PAGE_CONTROLS);
    out.append(endpoint.as_str());
    out.append(MODULE_PAGE_SCRIPT);
    out
}

pub const MODULE_PAGE_SCRIPT: &'static str = ";\n    const query = document.getElementById(\"query\");\n    const result = document.getElementById(\"result\");\n    document.getElementById(\"run\").addEventListener(\"click\", async () => {\n      const response = await fetch(endpoint, {\n        method: \"POST\",\n        headers: { \"content-type\": \"application/json\" },\n        body: JSON.stringify({ query: query.value })\n      });\n      result.textContent = await response.text();\n    });\n  </script>\n</body>\n</html>";

/// GraphQL module: where the endpoint and the playground are served, the
/// playground's title, and the executor the application runs queries with.
pub struct GraphQLModule<E> {
    endpoint_path: String,
    playground_path: String,
    title: String,
    executor: E,
}

impl<E> GraphQLModule<E> {
    pub closed spec fn endpoint_spec(&self) -> Seq<char> {
        self.endpoint_path@
    }

    pub closed spec fn playground_spec(&self) -> Seq<char> {
        self.playground_path@
    }

    pub closed spec fn title_spec(&self) -> Seq<char> {
        self.title@
    }

    pub closed spec fn executor_spec(&self) -> E {
        self.executor
    }

    /// The executor the application runs queries with.
    pub fn executor(&self) -> (r: &E)
        ensures
            *r == self.executor_spec(),
    {
        &self.executor
    }

    /// Endpoint and playground at `/graphql`, titled `Nivasa GraphQL`.
    pub fn new(executor: E) -> (r: Self)
        ensures
            r.endpoint_spec() == "/graphql"@,
            r.playground_spec() == "/graphql"@,
            r.title_spec() == "Nivasa GraphQL"@,
            r.executor_spec() == executor,
    {
        GraphQLModule {
            endpoint_path: String::from_str("/graphql"),
            playground_path: String::from_str("/graphql"),
            title: String::from_str("Nivasa GraphQL"),
            executor,
        }
    }

    pub fn endpoint_path(self, path: &str) -> (r: Self)
        ensures
            r.endpoint_spec() == path@,
            r.playground_spec() == self.playground_spec(),
            r.title_spec() == self.title_spec(),
    {
        GraphQLModule { endpoint_path: path.to_owned(), ..self }
    }

    pub fn playground_path(self, path: &str) -> (r: Self)
        ensures
            r.playground_spec() == path@,
            r.endpoint_spec() == self.endpoint_spec(),
            r.title_spec() == self.title_spec(),
    {
        GraphQLModule { playground_path: path.to_owned(), ..self }
    }

    pub fn title(self, title: &str) -> (r: Self)
        ensures
            r.title_spec() == title@,
            r.endpoint_spec() == self.endpoint_spec(),
            r.playground_spec() == self.playground_spec(),
    {
        GraphQLModule { title: title.to_owned(), ..self }
    }

    /// The path queries are posted to.
    pub fn endpoint(&self) -> (r: &str)
        ensures
            r@ == self.endpoint_spec(),
    {
        self.endpoint_path.as_str()
    }

    /// The path the playground page is served at.
    pub fn playground(&self) -> (r: &str)
        ensures
            r@ == self.playground_spec(),
    {
        self.playground_path.as_str()
    }

    /// The playground page, as an OK HTML response.
    pub fn playground_response(&self) -> (r: NivasaResponse)
        ensures
            r@.status == 200,
            r@.body == BodyView::Html(module_playground_page(self.title_spec(), self.endpoint_spec())),
    {
        let html = module_playground_html(self.title.as_str(), self.endpoint_path.as_str());
        NivasaResponse::html(html.as_str())
    }
}

} // verus!
