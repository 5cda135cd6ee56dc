use nivasa_http::graphql::{graphql_bad_request, graphql_ok, html_escape, module_playground_html};
use nivasa_http::{graphql_playground_html, GraphQLError, GraphQLModule, GraphQLResponse};

#[test]
fn playground_html_includes_controls_and_endpoint() {
    let html = graphql_playground_html("Nivasa GraphQL", "/graphql");

    assert!(html.contains("<title>Nivasa GraphQL</title>"));
    assert!(html.contains("<h1>Nivasa GraphQL</h1>"));
    assert!(html.contains("<p>GraphQL playground for /graphql</p>"));
    assert!(html.contains(r#"<textarea id="query">query Demo { __typename }</textarea>"#));
    assert!(html.contains(r#"<button id="run">Run query</button>"#));
    assert!(html.contains(r#"const endpoint = "/graphql";"#));
    assert!(html.contains(r#"body: JSON.stringify({ query: query.value })"#));
}

#[test]
fn playground_html_escapes_title_and_endpoint() {
    let html = graphql_playground_html(r#"GraphQL <Playground> & "Safe""#, r#"/graphql?topic=demo&mode="play""#);

    assert!(html.contains("&lt;Playground&gt;"));
    assert!(html.contains("&amp;"));
    assert!(html.contains("&quot;Safe&quot;"));
    assert!(html.contains(r#"GraphQL playground for /graphql?topic=demo&amp;mode=&quot;play&quot;"#));
    assert!(html.contains(r#"const endpoint = "/graphql?topic=demo&mode=\"play\"";"#));
}

#[test]
fn html_escape_replaces_the_five_characters() {
    assert_eq!(html_escape(r#"<a href='x'>&"</a>"#), "&lt;a href=&#39;x&#39;&gt;&amp;&quot;&lt;/a&gt;");
    assert_eq!(html_escape("plain"), "plain");
}

#[test]
fn graphql_envelopes_serialize_present_fields_only() {
    assert_eq!(GraphQLResponse::data("{\"a\":1}").into_json(), "{\"data\":{\"a\":1}}");
    assert_eq!(GraphQLResponse::error("boom").into_json(), "{\"errors\":[{\"message\":\"boom\"}]}");
    let both = GraphQLResponse {
        data: Some("null".to_string()),
        errors: vec![
            GraphQLError::new("a"),
            GraphQLError { message: "b".to_string(), extensions: Some("{\"code\":1}".to_string()) },
        ],
    };
    assert_eq!(
        both.into_json(),
        "{\"data\":null,\"errors\":[{\"message\":\"a\"},{\"extensions\":{\"code\":1},\"message\":\"b\"}]}"
    );
}

#[test]
fn graphql_invalid_body_returns_a_bad_request_response() {
    let response = graphql_bad_request("missing field `query`");
    assert_eq!(response.status(), 400);
    let json: serde_json::Value = serde_json::from_slice(&response.body().as_bytes()).unwrap();
    assert_eq!(json["errors"][0]["message"], "missing field `query`");
    assert!(json.get("data").is_none());
}

#[test]
fn graphql_results_are_sent_as_json() {
    let response = graphql_ok(&GraphQLResponse::data("{\"hello\":\"world\"}"));
    assert_eq!(response.status(), 200);
    assert_eq!(response.headers().get_str("content-type").unwrap(), "application/json");
    assert_eq!(response.body().as_bytes(), b"{\"data\":{\"hello\":\"world\"}}");
}

#[test]
fn graphql_module_defaults_and_playground() {
    let module = GraphQLModule::new(()).title("Demo").endpoint_path("/api/graphql");
    assert_eq!(module.endpoint(), "/api/graphql");
    assert_eq!(module.playground(), "/graphql");
    let page = module.playground_response();
    assert_eq!(page.status(), 200);
    let html = String::from_utf8(page.body().as_bytes()).unwrap();
    assert_eq!(html, module_playground_html("Demo", "/api/graphql"));
    assert!(html.contains("<title>Demo</title>"));
    assert!(html.contains(r#"const endpoint = "/api/graphql";"#));
}

#[test]
fn playground_surface_renders_expected_shell() {
    let html = graphql_playground_html("Nivasa GraphQL", "/graphql");

    assert!(html.starts_with("<!doctype html>"));
    assert!(html.contains("<title>Nivasa GraphQL</title>"));
    assert!(html.contains(r#"<textarea id="query">query Demo { __typename }</textarea>"#));
    assert!(html.contains(r#"<button id="run">Run query</button>"#));
    assert!(html.contains(r#"GraphQL playground for /graphql"#));
}

#[test]
fn playground_surface_escapes_script_and_markup_contexts() {
    let html = graphql_playground_html(r#"GraphQL <Playground> & "Safe""#, r#"/graphql?topic=demo&mode="play""#);

    assert!(html.contains("&lt;Playground&gt;"));
    assert!(html.contains("&amp;"));
    assert!(html.contains("&quot;Safe&quot;"));
    assert!(html.contains(r#"GraphQL playground for /graphql?topic=demo&amp;mode=&quot;play&quot;"#));
    assert!(html.contains(r#"const endpoint = "/graphql?topic=demo&mode=\"play\"";"#));
}
