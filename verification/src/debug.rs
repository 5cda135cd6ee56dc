//! Debug endpoints that expose the request statechart.
use vstd::prelude::*;

verus! {

pub const STATECHART_PATH: &'static str = "/_nivasa/statechart";

pub const STATECHART_SCXML_PATH: &'static str = "/_nivasa/statechart/scxml";

pub const STATECHART_TRANSITIONS_PATH: &'static str = "/_nivasa/statechart/transitions";

/// The answer of a debug endpoint.
#[derive(Debug, Clone, PartialEq, Eq)]
pub struct DebugEndpointResponse {
    pub status: u16,
    pub content_type: &'static str,
    pub body: String,
}

/// What a debug endpoint answers with, given the snapshot serialized as
/// pretty JSON, its raw SCXML document (if any) and its transition log as
/// pretty JSON. Other paths are not debug endpoints.
pub open spec fn debug_answer(
    path: Seq<char>,
    snapshot_json: Seq<char>,
    raw_scxml: Option<Seq<char>>,
    transitions_json: Seq<char>,
) -> Option<(Seq<char>, Seq<char>)> {
    if path == STATECHART_PATH@ {
        Some(("application/json"@, snapshot_json))
    } else if path == STATECHART_SCXML_PATH@ {
        Some((
            "application/xml"@,
            match raw_scxml {
                Some(s) => s,
                None => Seq::empty(),
            },
        ))
    } else if path == STATECHART_TRANSITIONS_PATH@ {
        Some(("application/json"@, transitions_json))
    } else {
        None
    }
}

/// The answer of the debug endpoint at `path`, if there is one: status `200`.
pub fn handle_statechart_debug_request(
    path: &str,
    snapshot_json: &str,
    raw_scxml: Option<&str>,
    transitions_json: &str,
) -> (r: Option<DebugEndpointResponse>)
    ensures
        match debug_answer(
            path@,
            snapshot_json@,
            match raw_scxml {
                Some(s) => Some(s@),
                None => None,
            },
            transitions_json@,
        ) {
            Some(a) => r matches Some(d) && d.status == 200 && d.content_type@ == a.0 && d.body@ == a.1,
            None => r is None,
        },
{
    proof {
        reveal_strlit("application/json");
        reveal_strlit("application/xml");
    }
    if crate::text::str_eq(path, STATECHART_PATH) {
        Some(DebugEndpointResponse { status: 200, content_type: "application/json", body: snapshot_json.to_owned() })
    } else if crate::text::str_eq(path, STATECHART_SCXML_PATH) {
        let body = match raw_scxml {
            Some(s) => s.to_owned(),
            None => String::new(),
        };
        Some(DebugEndpointResponse { status: 200, content_type: "application/xml", body })
    } else if crate::text::str_eq(path, STATECHART_TRANSITIONS_PATH) {
        Some(
            DebugEndpointResponse {
                status: 200,
                content_type: "application/json",
                body: transitions_json.to_owned(),
            },
        )
    } else {
        None
    }
}

} // verus!
