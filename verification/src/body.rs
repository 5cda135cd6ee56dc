//! Request and response bodies.
use vstd::prelude::*;
use vstd::string::*;
use vstd::utf8::*;
use crate::text::copy_all;

verus! {

/// Minimal body abstraction for the HTTP wrapper layer.
///
/// A JSON body holds the serialized JSON document.
#[derive(Debug, Clone, PartialEq, Eq)]
pub enum Body {
    Empty,
    Text(String),
    Html(String),
    Json(String),
    Bytes(Vec<u8>),
}

pub enum BodyView {
    Empty,
    Text(Seq<char>),
    Html(Seq<char>),
    Json(Seq<char>),
    Bytes(Seq<u8>),
}

impl BodyView {
    /// The bytes the body carries on the wire.
    pub open spec fn bytes(self) -> Seq<u8> {
        match self {
            BodyView::Empty => Seq::empty(),
            BodyView::Text(t) => encode_utf8(t),
            BodyView::Html(t) => encode_utf8(t),
            BodyView::Json(t) => encode_utf8(t),
            BodyView::Bytes(b) => b,
        }
    }

    /// The default `content-type` of each kind of body.
    pub open spec fn content_type(self) -> Option<Seq<char>> {
        match self {
            BodyView::Empty => None,
            BodyView::Text(_) => Some("text/plain; charset=utf-8"@),
            BodyView::Html(_) => Some("text/html; charset=utf-8"@),
            BodyView::Json(_) => Some("application/json"@),
            BodyView::Bytes(_) => Some("application/octet-stream"@),
        }
    }
}

impl View for Body {
    type V = BodyView;

    open spec fn view(&self) -> BodyView {
        match self {
            Body::Empty => BodyView::Empty,
            Body::Text(t) => BodyView::Text(t@),
            Body::Html(t) => BodyView::Html(t@),
            Body::Json(t) => BodyView::Json(t@),
            Body::Bytes(b) => BodyView::Bytes(b@),
        }
    }
}

impl Body {
    /// An empty body.
    pub fn empty() -> (r: Body)
        ensures
            r@ == BodyView::Empty,
    {
        Body::Empty
    }

    /// A UTF-8 text body.
    pub fn text(text: &str) -> (r: Body)
        ensures
            r@ == BodyView::Text(text@),
    {
        Body::Text(text.to_owned())
    }

    /// An HTML body.
    pub fn html(html: &str) -> (r: Body)
        ensures
            r@ == BodyView::Html(html@),
    {
        Body::Html(html.to_owned())
    }

    /// A JSON body holding the serialized document `json`.
    pub fn json(json: &str) -> (r: Body)
        ensures
            r@ == BodyView::Json(json@),
    {
        Body::Json(json.to_owned())
    }

    /// A raw byte body.
    pub fn bytes(bytes: Vec<u8>) -> (r: Body)
        ensures
            r@ == BodyView::Bytes(bytes@),
    {
        Body::Bytes(bytes)
    }

    /// The default content type for this body, if one is known.
    pub fn content_type(&self) -> (r: Option<&'static str>)
        ensures
            match r {
                Some(s) => self@.content_type() == Some(s@),
                None => self@.content_type() is None,
            },
    {
        match self {
            Body::Empty => None,
            Body::Text(_) => Some("text/plain; charset=utf-8"),
            Body::Html(_) => Some("text/html; charset=utf-8"),
            Body::Json(_) => Some("application/json"),
            Body::Bytes(_) => Some("application/octet-stream"),
        }
    }

    /// Whether the body is empty.
    pub fn is_empty(&self) -> (r: bool)
        ensures
            r == (self@ is Empty),
    {
        match self {
            Body::Empty => true,
            _ => false,
        }
    }

    /// An owned copy of the body.
    pub(crate) fn duplicate(&self) -> (r: Body)
        ensures
            r@ == self@,
    {
        match self {
            Body::Empty => Body::Empty,
            Body::Text(t) => Body::Text(t.clone()),
            Body::Html(t) => Body::Html(t.clone()),
            Body::Json(t) => Body::Json(t.clone()),
            Body::Bytes(b) => Body::Bytes(crate::text::copy_all(b.as_slice())),
        }
    }

    /// The body's bytes.
    pub fn as_bytes(&self) -> (r: Vec<u8>)
        ensures
            r@ == self@.bytes(),
    {
        match self {
            Body::Empty => Vec::new(),
            Body::Text(t) => t.as_str().as_bytes_vec(),
            Body::Html(t) => t.as_str().as_bytes_vec(),
            Body::Json(t) => t.as_str().as_bytes_vec(),
            Body::Bytes(b) => copy_all(b.as_slice()),
        }
    }

    /// Consume the body and return its bytes.
    pub fn into_bytes(self) -> (r: Vec<u8>)
        ensures
            r@ == self@.bytes(),
    {
        match self {
            Body::Bytes(b) => b,
            other => other.as_bytes(),
        }
    }
}

impl Default for Body {
    fn default() -> (r: Body)
        ensures
            r@ == BodyView::Empty,
    {
        Body::Empty
    }
}

/// Explicit text body wrapper for response conversion.
#[derive(Debug, Clone, PartialEq, Eq)]
pub struct Text<T>(pub T);

impl<T> Text<T> {
    pub fn into_inner(self) -> (r: T)
        ensures
            r == self.0,
    {
        self.0
    }
}

/// Explicit HTML body wrapper for response conversion.
#[derive(Debug, Clone, PartialEq, Eq)]
pub struct Html<T>(pub T);

impl<T> Html<T> {
    pub fn into_inner(self) -> (r: T)
        ensures
            r == self.0,
    {
        self.0
    }
}

} // verus!
