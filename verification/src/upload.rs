//! Uploaded files, multipart limits and the file interceptors that pull
//! buffered files out of a `multipart/form-data` body.
//!
//! Multipart decoding stays at this helper layer: the request pipeline hands
//! over the `content-type` header and the body bytes, and gets back either the
//! uploaded files of one field or the reason they were refused.
use vstd::prelude::*;
use vstd::string::*;
use vstd::utf8::*;
use crate::text::{
    bytes_starts_with_at, chars_eq_ignore_ascii_case, chars_index_of, chars_starts_with, copy_range,
    drop_prefix, drop_suffix, eq_ignore_ascii_case, find_bytes, find_bytes_from, find_first,
    index_of, split, split_chars, starts_with, string_of, trim, trim_chars, trim_matches,
    trim_matches_chars, views, chars_of, ends_with, decimal, decimal_string,
};


verus! {

/// Buffered file payload extracted from a multipart request.
#[derive(Debug, Clone, PartialEq, Eq)]
pub struct UploadedFile {
    filename: String,
    content_type: Option<String>,
    bytes: Vec<u8>,
}

pub struct UploadedFileView {
    pub filename: Seq<char>,
    pub content_type: Option<Seq<char>>,
    pub bytes: Seq<u8>,
}

pub open spec fn opt_view(o: Option<String>) -> Option<Seq<char>> {
    match o {
        Some(s) => Some(s@),
        None => None,
    }
}

pub open spec fn opt_chars_view(o: Option<Vec<char>>) -> Option<Seq<char>> {
    match o {
        Some(s) => Some(s@),
        None => None,
    }
}

pub open spec fn string_views(v: Seq<String>) -> Seq<Seq<char>> {
    v.map_values(|s: String| s@)
}

impl View for UploadedFile {
    type V = UploadedFileView;

    closed spec fn view(&self) -> UploadedFileView {
        UploadedFileView {
            filename: self.filename@,
            content_type: opt_view(self.content_type),
            bytes: self.bytes@,
        }
    }
}

impl UploadedFile {
    /// Create a new uploaded file value.
    pub fn new(filename: &str, content_type: Option<String>, bytes: Vec<u8>) -> (r: Self)
        ensures
            r@.filename == filename@,
            r@.content_type == opt_view(content_type),
            r@.bytes == bytes@,
    {
        UploadedFile { filename: filename.to_owned(), content_type, bytes }
    }

    /// Borrow the original filename.
    pub fn filename(&self) -> (r: &str)
        ensures
            r@ == self@.filename,
    {
        self.filename.as_str()
    }

    /// Borrow the declared content type, if the multipart part provided one.
    pub fn content_type(&self) -> (r: Option<&str>)
        ensures
            match r {
                Some(s) => self@.content_type == Some(s@),
                None => self@.content_type is None,
            },
    {
        match &self.content_type {
            Some(s) => Some(s.as_str()),
            None => None,
        }
    }

    /// Borrow the buffered file bytes.
    pub fn bytes(&self) -> (r: &[u8])
        ensures
            r@ == self@.bytes,
    {
        self.bytes.as_slice()
    }

    /// The buffered file length in bytes.
    pub fn len(&self) -> (r: usize)
        ensures
            r == self@.bytes.len(),
    {
        self.bytes.len()
    }

    /// Whether the buffered file is empty.
    pub fn is_empty(&self) -> (r: bool)
        ensures
            r == (self@.bytes.len() == 0),
    {
        self.bytes.len() == 0
    }

    /// Consume the value and return the buffered bytes.
    pub fn into_bytes(self) -> (r: Vec<u8>)
        ensures
            r@ == self@.bytes,
    {
        self.bytes
    }

    /// Consume the value and return filename, content type and bytes.
    pub fn into_parts(self) -> (r: (String, Option<String>, Vec<u8>))
        ensures
            r.0@ == self@.filename,
            opt_view(r.1) == self@.content_type,
            r.2@ == self@.bytes,
    {
        (self.filename, self.content_type, self.bytes)
    }
}

/// Size, field-name and MIME-type limits applied while extracting files.
#[derive(Debug, Clone, PartialEq, Eq, Default)]
pub struct MultipartLimits {
    whole_stream: Option<u64>,
    per_field: Option<u64>,
    field_limits: Vec<(String, u64)>,
    allowed_fields: Vec<String>,
    allowed_mime_types: Vec<String>,
}

pub struct MultipartLimitsView {
    pub whole_stream: Option<u64>,
    pub per_field: Option<u64>,
    pub field_limits: Seq<(Seq<char>, u64)>,
    pub allowed_fields: Seq<Seq<char>>,
    pub allowed_mime_types: Seq<Seq<char>>,
}

pub open spec fn limit_entries_view(v: Seq<(String, u64)>) -> Seq<(Seq<char>, u64)> {
    v.map_values(|e: (String, u64)| (e.0@, e.1))
}

/// The limit recorded for `field` (the earliest entry for that name).
pub open spec fn lookup_limit(entries: Seq<(Seq<char>, u64)>, field: Seq<char>) -> Option<u64>
    decreases entries.len(),
{
    if entries.len() == 0 {
        None
    } else if entries[0].0 == field {
        Some(entries[0].1)
    } else {
        lookup_limit(entries.drop_first(), field)
    }
}

impl View for MultipartLimits {
    type V = MultipartLimitsView;

    closed spec fn view(&self) -> MultipartLimitsView {
        MultipartLimitsView {
            whole_stream: self.whole_stream,
            per_field: self.per_field,
            field_limits: limit_entries_view(self.field_limits@),
            allowed_fields: string_views(self.allowed_fields@),
            allowed_mime_types: string_views(self.allowed_mime_types@),
        }
    }
}

impl MultipartLimitsView {
    pub open spec fn field_limit_for(self, field: Seq<char>) -> Option<u64> {
        lookup_limit(self.field_limits, field)
    }

    /// No MIME allowlist, or a declared type that is on it.
    pub open spec fn allows_mime_type(self, mime: Option<Seq<char>>) -> bool {
        self.allowed_mime_types.len() == 0 || (mime is Some && self.allowed_mime_types.contains(
            mime->0,
        ))
    }

    /// The field is on the allowlist, or there is no allowlist.
    pub open spec fn allows_field(self, field: Seq<char>) -> bool {
        self.allowed_fields.len() == 0 || self.allowed_fields.contains(field)
    }

    /// The size limit that applies to one field.
    pub open spec fn limit_for_field(self, field: Seq<char>) -> Option<u64> {
        match self.field_limit_for(field) {
            Some(l) => Some(l),
            None => self.per_field,
        }
    }
}

pub open spec fn strs_view(v: Seq<&str>) -> Seq<Seq<char>> {
    v.map_values(|s: &str| s@)
}

fn strings_of(items: &[&str]) -> (r: Vec<String>)
    ensures
        string_views(r@) == strs_view(items@),
{
    let mut r: Vec<String> = Vec::new();
    let mut i: usize = 0;
    while i < items.len()
        invariant
            i <= items@.len(),
            string_views(r@) == strs_view(items@.take(i as int)),
        decreases items@.len() - i,
    {
        let ghost old_r = r@;
        let s = items[i].to_owned();
        assert(s@ == items@[i as int]@);
        r.push(s);
        assert(string_views(r@) =~= string_views(old_r).push(s@));
        assert(strs_view(items@.take(i + 1)) =~= strs_view(items@.take(i as int)).push(items@[i as int]@));
        i += 1;
    }
    assert(items@.take(items@.len() as int) =~= items@);
    r
}

fn contains_string(items: &Vec<String>, s: &String) -> (r: bool)
    ensures
        r == string_views(items@).contains(s@),
{
    let mut i: usize = 0;
    while i < items.len()
        invariant
            i <= items@.len(),
            forall|j: int| 0 <= j < i ==> items@[j]@ != s@,
        decreases items@.len() - i,
    {
        if items[i] == *s {
            assert(string_views(items@)[i as int] == s@);
            return true;
        }
        i += 1;
    }
    assert forall|j: int| 0 <= j < string_views(items@).len() implies string_views(
        items@,
    )[j] != s@ by {
        assert(string_views(items@)[j] == items@[j]@);
    }
    false
}

fn set_field_limit(current: Vec<(String, u64)>, field: &str, bytes: u64) -> (r: Vec<(
    String,
    u64,
)>)
    ensures
        forall|k: Seq<char>|
            #[trigger] lookup_limit(limit_entries_view(r@), k) == if k == field@ {
                Some(bytes)
            } else {
                lookup_limit(limit_entries_view(current@), k)
            },
{
    let mut entries = current;
    let key = field.to_owned();
    let ghost old_entries = entries@;
    let mut i: usize = 0;
    while i < entries.len()
        invariant
            i <= entries@.len(),
            entries@ == old_entries,
            old_entries == current@,
            forall|j: int| 0 <= j < i ==> entries@[j].0@ != field@,
            key@ == field@,
        decreases entries@.len() - i,
    {
        if entries[i].0 == key {
            let ghost before = entries@;
            entries.set(i, (key, bytes));
            proof {
                assert(limit_entries_view(entries@) =~= limit_entries_view(before).update(
                    i as int,
                    (field@, bytes),
                ));
                lemma_lookup_replace(
                    limit_entries_view(before),
                    limit_entries_view(entries@),
                    i as int,
                    field@,
                    bytes,
                );
            }
            return entries;
        }
        i += 1;
    }
    let ghost before = entries@;
    entries.push((key, bytes));
    proof {
        assert(limit_entries_view(entries@) =~= limit_entries_view(before).push((field@, bytes)));
        lemma_lookup_append(limit_entries_view(before), limit_entries_view(entries@), field@, bytes);
    }
    entries
}

impl MultipartLimits {
    pub open spec fn new_view() -> MultipartLimitsView {
        MultipartLimitsView {
            whole_stream: None,
            per_field: None,
            field_limits: Seq::empty(),
            allowed_fields: Seq::empty(),
            allowed_mime_types: Seq::empty(),
        }
    }

    /// An empty limit set: nothing is capped or restricted.
    pub fn new() -> (r: Self)
        ensures
            r@ == Self::new_view(),
    {
        let r = MultipartLimits {
            whole_stream: None,
            per_field: None,
            field_limits: Vec::new(),
            allowed_fields: Vec::new(),
            allowed_mime_types: Vec::new(),
        };
        assert(r@.field_limits =~= Seq::<(Seq<char>, u64)>::empty());
        assert(r@.allowed_fields =~= Seq::<Seq<char>>::empty());
        assert(r@.allowed_mime_types =~= Seq::<Seq<char>>::empty());
        r
    }

    /// Cap the total size of the multipart payload.
    pub fn whole_stream(self, bytes: u64) -> (r: Self)
        ensures
            r@ == (MultipartLimitsView { whole_stream: Some(bytes), ..self@ }),
    {
        MultipartLimits { whole_stream: Some(bytes), ..self }
    }

    /// Cap the size of every field without a field-specific limit.
    pub fn per_field(self, bytes: u64) -> (r: Self)
        ensures
            r@ == (MultipartLimitsView { per_field: Some(bytes), ..self@ }),
    {
        MultipartLimits { per_field: Some(bytes), ..self }
    }

    /// Set (or replace) the size limit of one field.
    pub fn field_limit(self, field: &str, bytes: u64) -> (r: Self)
        ensures
            r@.whole_stream == self@.whole_stream,
            r@.per_field == self@.per_field,
            r@.allowed_fields == self@.allowed_fields,
            r@.allowed_mime_types == self@.allowed_mime_types,
            forall|k: Seq<char>|
                #[trigger] r@.field_limit_for(k) == if k == field@ {
                    Some(bytes)
                } else {
                    self@.field_limit_for(k)
                },
    {
        let entries = set_field_limit(self.field_limits, field, bytes);
        MultipartLimits { field_limits: entries, ..self }
    }

    /// Restrict extraction to the named fields.
    pub fn allowed_fields(self, fields: &[&str]) -> (r: Self)
        ensures
            r@ == (MultipartLimitsView { allowed_fields: strs_view(fields@), ..self@ }),
    {
        let v = strings_of(fields);
        MultipartLimits { allowed_fields: v, ..self }
    }

    /// Restrict extraction to the named MIME types.
    pub fn allowed_mime_types(self, mime_types: &[&str]) -> (r: Self)
        ensures
            r@ == (MultipartLimitsView { allowed_mime_types: strs_view(mime_types@), ..self@ }),
    {
        let v = strings_of(mime_types);
        MultipartLimits { allowed_mime_types: v, ..self }
    }

    /// The whole-stream limit.
    pub fn whole_stream_limit(&self) -> (r: Option<u64>)
        ensures
            r == self@.whole_stream,
    {
        self.whole_stream
    }

    /// The default per-field limit.
    pub fn per_field_limit(&self) -> (r: Option<u64>)
        ensures
            r == self@.per_field,
    {
        self.per_field
    }

    /// The field-specific size limit of `field`, if one was set.
    pub fn field_limit_for(&self, field: &str) -> (r: Option<u64>)
        ensures
            r == self@.field_limit_for(field@),
    {
        let key = field.to_owned();
        let mut i: usize = 0;
        assert(limit_entries_view(self.field_limits@).skip(0) =~= limit_entries_view(self.field_limits@));
        while i < self.field_limits.len()
            invariant
                key@ == field@,
                i <= self.field_limits@.len(),
                self@.field_limit_for(field@) == lookup_limit(
                    limit_entries_view(self.field_limits@).skip(i as int),
                    field@,
                ),
            decreases self.field_limits@.len() - i,
        {
            let ghost es = limit_entries_view(self.field_limits@);
            assert(es.skip(i as int).drop_first() =~= es.skip(i + 1));
            if self.field_limits[i].0 == key {
                return Some(self.field_limits[i].1);
            }
            i += 1;
        }
        None
    }

    /// The per-field size limits, in the order they were set.
    pub fn field_limits_list(&self) -> (r: &[(String, u64)])
        ensures
            limit_entries_view(r@) == self@.field_limits,
    {
        self.field_limits.as_slice()
    }

    /// The allowed field names.
    pub fn allowed_fields_list(&self) -> (r: &[String])
        ensures
            string_views(r@) == self@.allowed_fields,
    {
        self.allowed_fields.as_slice()
    }

    /// The allowed MIME types.
    pub fn allowed_mime_types_list(&self) -> (r: &[String])
        ensures
            string_views(r@) == self@.allowed_mime_types,
    {
        self.allowed_mime_types.as_slice()
    }

    /// Whether a part with this declared MIME type may be extracted.
    pub fn allows_mime_type(&self, mime_type: Option<&str>) -> (r: bool)
        ensures
            r == self@.allows_mime_type(
                match mime_type {
                    Some(m) => Some(m@),
                    None => None,
                },
            ),
    {
        if self.allowed_mime_types.len() == 0 {
            return true;
        }
        match mime_type {
            Some(m) => {
                let s = m.to_owned();
                contains_string(&self.allowed_mime_types, &s)
            },
            None => false,
        }
    }
}

proof fn lemma_lookup_replace(
    before: Seq<(Seq<char>, u64)>,
    after: Seq<(Seq<char>, u64)>,
    i: int,
    field: Seq<char>,
    bytes: u64,
)
    requires
        0 <= i < before.len(),
        before[i].0 == field,
        after == before.update(i, (field, bytes)),
        forall|j: int| 0 <= j < i ==> before[j].0 != field,
    ensures
        forall|k: Seq<char>|
            #[trigger] lookup_limit(after, k) == if k == field {
                Some(bytes)
            } else {
                lookup_limit(before, k)
            },
    decreases i,
{
    assert forall|k: Seq<char>|
        #[trigger] lookup_limit(after, k) == if k == field {
            Some(bytes)
        } else {
            lookup_limit(before, k)
        } by {
        if i > 0 {
            assert(after.drop_first() =~= before.drop_first().update(i - 1, (field, bytes)));
            lemma_lookup_replace(
                before.drop_first(),
                after.drop_first(),
                i - 1,
                field,
                bytes,
            );
            assert(lookup_limit(after.drop_first(), k) == if k == field {
                Some(bytes)
            } else {
                lookup_limit(before.drop_first(), k)
            });
        } else {
            assert(after.drop_first() =~= before.drop_first());
        }
    }
}

proof fn lemma_lookup_append(
    before: Seq<(Seq<char>, u64)>,
    after: Seq<(Seq<char>, u64)>,
    field: Seq<char>,
    bytes: u64,
)
    requires
        after == before.push((field, bytes)),
        forall|j: int| 0 <= j < before.len() ==> before[j].0 != field,
    ensures
        forall|k: Seq<char>|
            #[trigger] lookup_limit(after, k) == if k == field {
                Some(bytes)
            } else {
                lookup_limit(before, k)
            },
    decreases before.len(),
{
    assert forall|k: Seq<char>|
        #[trigger] lookup_limit(after, k) == if k == field {
            Some(bytes)
        } else {
            lookup_limit(before, k)
        } by {
        if before.len() > 0 {
            assert(after.drop_first() =~= before.drop_first().push((field, bytes)));
            lemma_lookup_append(before.drop_first(), after.drop_first(), field, bytes);
            assert(lookup_limit(after.drop_first(), k) == if k == field {
                Some(bytes)
            } else {
                lookup_limit(before.drop_first(), k)
            });
        } else {
            assert(after.drop_first() =~= Seq::<(Seq<char>, u64)>::empty());
        }
    }
}

/// Errors raised while extracting uploaded files from a multipart payload.
#[derive(Debug, Clone, PartialEq, Eq)]
pub enum UploadInterceptError {
    MissingMultipartBoundary,
    InvalidMultipart(String),
    UnknownField { name: String },
    MissingFile { field: String },
    TooManyFiles { field: String, count: usize },
    FieldTooLarge { field: String, limit: u64, actual: usize },
    StreamTooLarge { limit: u64, actual: usize },
    DisallowedMimeType { mime_type: Option<String> },
}

pub enum UploadErrorView {
    MissingMultipartBoundary,
    InvalidMultipart(Seq<char>),
    UnknownField(Seq<char>),
    MissingFile(Seq<char>),
    TooManyFiles(Seq<char>, usize),
    FieldTooLarge(Seq<char>, u64, usize),
    StreamTooLarge(u64, usize),
    DisallowedMimeType(Option<Seq<char>>),
}

impl View for UploadInterceptError {
    type V = UploadErrorView;

    open spec fn view(&self) -> UploadErrorView {
        match self {
            UploadInterceptError::MissingMultipartBoundary => UploadErrorView::MissingMultipartBoundary,
            UploadInterceptError::InvalidMultipart(m) => UploadErrorView::InvalidMultipart(m@),
            UploadInterceptError::UnknownField { name } => UploadErrorView::UnknownField(name@),
            UploadInterceptError::MissingFile { field } => UploadErrorView::MissingFile(field@),
            UploadInterceptError::TooManyFiles { field, count } => UploadErrorView::TooManyFiles(
                field@,
                *count,
            ),
            UploadInterceptError::FieldTooLarge { field, limit, actual } =>
                UploadErrorView::FieldTooLarge(field@, *limit, *actual),
            UploadInterceptError::StreamTooLarge { limit, actual } => UploadErrorView::StreamTooLarge(
                *limit,
                *actual,
            ),
            UploadInterceptError::DisallowedMimeType { mime_type } =>
                UploadErrorView::DisallowedMimeType(opt_view(*mime_type)),
        }
    }
}

pub open spec fn crlf_bytes() -> Seq<u8> {
    seq![13u8, 10u8]
}

pub open spec fn header_end_bytes() -> Seq<u8> {
    seq![13u8, 10u8, 13u8, 10u8]
}

pub open spec fn dash_dash() -> Seq<u8> {
    seq![45u8, 45u8]
}

pub open spec fn crlf_chars() -> Seq<char> {
    seq!['\r', '\n']
}

pub open spec fn name_eq_chars() -> Seq<char> {
    seq!['n', 'a', 'm', 'e', '=']
}

pub open spec fn filename_eq_chars() -> Seq<char> {
    seq!['f', 'i', 'l', 'e', 'n', 'a', 'm', 'e', '=']
}

pub open spec fn content_disposition_chars() -> Seq<char> {
    seq![
        'c', 'o', 'n', 't', 'e', 'n', 't', '-', 'd', 'i', 's', 'p', 'o', 's', 'i', 't', 'i', 'o', 'n'
    ]
}

pub open spec fn content_type_chars() -> Seq<char> {
    seq!['c', 'o', 'n', 't', 'e', 'n', 't', '-', 't', 'y', 'p', 'e']
}

/// The `--boundary` delimiter line of a multipart body.
pub open spec fn boundary_marker(boundary: Seq<char>) -> Seq<u8> {
    dash_dash() + encode_utf8(boundary)
}

/// The parts between consecutive delimiters, up to the closing `--boundary--`;
/// `None` when a part is not closed by a further delimiter.
pub open spec fn sections(rest: Seq<u8>, marker: Seq<u8>) -> Option<Seq<Seq<u8>>>
    decreases rest.len(),
{
    if marker.len() == 0 {
        None
    } else {
        match find_first(rest, marker) {
            None => Some(Seq::empty()),
            Some(i) => {
                if 0 <= i && i + marker.len() <= rest.len() {
                    let after = rest.skip(i + marker.len());
                    if starts_with(after, dash_dash()) {
                        Some(Seq::empty())
                    } else {
                        let r2 = drop_prefix(after, crlf_bytes());
                        match find_first(r2, marker) {
                            None => None,
                            Some(j) => {
                                if 0 <= j <= r2.len() && r2.len() <= after.len() {
                                    let part = drop_suffix(r2.take(j), crlf_bytes());
                                    match sections(r2.skip(j), marker) {
                                        None => None,
                                        Some(ps) => Some(seq![part] + ps),
                                    }
                                } else {
                                    None
                                }
                            },
                        }
                    }
                } else {
                    None
                }
            },
        }
    }
}

/// What the headers of one part declare.
pub struct PartHeadersView {
    pub field_name: Option<Seq<char>>,
    pub filename: Option<Seq<char>>,
    pub content_type: Option<Seq<char>>,
}

pub open spec fn no_part_headers() -> PartHeadersView {
    PartHeadersView { field_name: None, filename: None, content_type: None }
}

/// One `;`-separated parameter of a `content-disposition` header.
pub open spec fn apply_disposition_segment(h: PartHeadersView, segment: Seq<char>) -> PartHeadersView {
    let t = trim(segment);
    if starts_with(t, name_eq_chars()) {
        PartHeadersView { field_name: Some(trim_matches(t.skip(5), '"')), ..h }
    } else if starts_with(t, filename_eq_chars()) {
        PartHeadersView { filename: Some(trim_matches(t.skip(9), '"')), ..h }
    } else {
        h
    }
}

pub open spec fn apply_disposition_segments(h: PartHeadersView, segments: Seq<Seq<char>>) -> PartHeadersView
    decreases segments.len(),
{
    if segments.len() == 0 {
        h
    } else {
        apply_disposition_segments(apply_disposition_segment(h, segments[0]), segments.drop_first())
    }
}

pub open spec fn invalid_header_line_message(line: Seq<char>) -> Seq<char> {
    "invalid header line `"@ + line + "`"@
}

/// One header line of a part; `Err` holds the message of the malformed line.
pub open spec fn apply_header_line(h: PartHeadersView, line: Seq<char>) -> Result<PartHeadersView, Seq<char>> {
    match index_of(line, ':') {
        None => Err(invalid_header_line_message(line)),
        Some(k) => {
            let name = trim(line.take(k));
            let value = trim(line.skip(k + 1));
            if eq_ignore_ascii_case(name, content_disposition_chars()) {
                Ok(apply_disposition_segments(h, split(value, seq![';']).drop_first()))
            } else if eq_ignore_ascii_case(name, content_type_chars()) {
                Ok(PartHeadersView { content_type: Some(value), ..h })
            } else {
                Ok(h)
            }
        },
    }
}

pub open spec fn apply_header_lines(h: PartHeadersView, lines: Seq<Seq<char>>) -> Result<PartHeadersView, Seq<char>>
    decreases lines.len(),
{
    if lines.len() == 0 {
        Ok(h)
    } else {
        match apply_header_line(h, lines[0]) {
            Err(m) => Err(m),
            Ok(h2) => apply_header_lines(h2, lines.drop_first()),
        }
    }
}

pub enum PartOutcome {
    /// A part without a filename (a plain form field).
    Skip,
    File(Seq<char>, UploadedFileView),
    Fail(UploadErrorView),
}

/// How one multipart part is read under `limits`.
pub open spec fn parse_part(part: Seq<u8>, limits: MultipartLimitsView) -> PartOutcome {
    match find_first(part, header_end_bytes()) {
        None => PartOutcome::Fail(UploadErrorView::InvalidMultipart("missing header separator"@)),
        Some(i) => {
            let header_bytes = part.take(i);
            let content = part.skip(i + 4);
            if !valid_utf8(header_bytes) {
                PartOutcome::Fail(
                    UploadErrorView::InvalidMultipart("multipart headers must be valid UTF-8"@),
                )
            } else {
                match apply_header_lines(
                    no_part_headers(),
                    split(decode_utf8(header_bytes), crlf_chars()),
                ) {
                    Err(m) => PartOutcome::Fail(UploadErrorView::InvalidMultipart(m)),
                    Ok(h) => match h.field_name {
                        None => PartOutcome::Fail(
                            UploadErrorView::InvalidMultipart("multipart field is missing a name"@),
                        ),
                        Some(field) => match h.filename {
                            None => PartOutcome::Skip,
                            Some(filename) => {
                                if !limits.allows_field(field) {
                                    PartOutcome::Fail(UploadErrorView::UnknownField(field))
                                } else if !limits.allows_mime_type(h.content_type) {
                                    PartOutcome::Fail(
                                        UploadErrorView::DisallowedMimeType(h.content_type),
                                    )
                                } else if limits.limit_for_field(field) is Some
                                    && content.len() > limits.limit_for_field(field)->0 {
                                    PartOutcome::Fail(
                                        UploadErrorView::FieldTooLarge(
                                            field,
                                            limits.limit_for_field(field)->0,
                                            content.len() as usize,
                                        ),
                                    )
                                } else {
                                    PartOutcome::File(
                                        field,
                                        UploadedFileView {
                                            filename,
                                            content_type: h.content_type,
                                            bytes: content,
                                        },
                                    )
                                }
                            },
                        },
                    },
                }
            }
        },
    }
}

/// A file part is refused as too large only under the limit that applies to
/// its field: the field-specific limit when one is set for that field name,
/// the per-field default only otherwise; and only when its content is
/// longer than that limit. So a part no longer than its field-specific
/// limit is never refused as too large.
pub proof fn lemma_field_limit_takes_precedence(part: Seq<u8>, limits: MultipartLimitsView)
    requires
        part.len() <= usize::MAX,
    ensures
        parse_part(part, limits) matches PartOutcome::Fail(UploadErrorView::FieldTooLarge(field, limit, actual))
            ==> {
            &&& actual > limit
            &&& (limits.field_limit_for(field) matches Some(own) ==> limit == own)
            &&& (limits.field_limit_for(field) is None ==> limits.per_field == Some(limit))
        },
{
}

/// The files of all parts, in order; the first refused part decides the error.
pub open spec fn parse_parts(parts: Seq<Seq<u8>>, limits: MultipartLimitsView) -> Result<
    Seq<(Seq<char>, UploadedFileView)>,
    UploadErrorView,
>
    decreases parts.len(),
{
    if parts.len() == 0 {
        Ok(Seq::empty())
    } else {
        match parse_part(parts[0], limits) {
            PartOutcome::Fail(e) => Err(e),
            PartOutcome::Skip => parse_parts(parts.drop_first(), limits),
            PartOutcome::File(f, file) => match parse_parts(parts.drop_first(), limits) {
                Err(e) => Err(e),
                Ok(rest) => Ok(seq![(f, file)] + rest),
            },
        }
    }
}

/// All uploaded files of a multipart body whose boundary is `boundary`.
pub open spec fn parse_upload(boundary: Seq<char>, body: Seq<u8>, limits: MultipartLimitsView) -> Result<
    Seq<(Seq<char>, UploadedFileView)>,
    UploadErrorView,
> {
    if limits.whole_stream is Some && body.len() > limits.whole_stream->0 {
        Err(UploadErrorView::StreamTooLarge(limits.whole_stream->0, body.len() as usize))
    } else {
        match sections(body, boundary_marker(boundary)) {
            None => Err(
                UploadErrorView::InvalidMultipart(
                    "multipart payload is missing a closing boundary"@,
                ),
            ),
            Some(parts) => parse_parts(parts, limits),
        }
    }
}

/// The files uploaded under `field`, in payload order.
pub open spec fn files_of_field(parts: Seq<(Seq<char>, UploadedFileView)>, field: Seq<char>) -> Seq<
    UploadedFileView,
>
    decreases parts.len(),
{
    if parts.len() == 0 {
        Seq::empty()
    } else if parts[0].0 == field {
        seq![parts[0].1] + files_of_field(parts.drop_first(), field)
    } else {
        files_of_field(parts.drop_first(), field)
    }
}

/// Exactly one file under `field`.
pub open spec fn extract_one(
    boundary: Seq<char>,
    body: Seq<u8>,
    limits: MultipartLimitsView,
    field: Seq<char>,
) -> Result<UploadedFileView, UploadErrorView> {
    match parse_upload(boundary, body, limits) {
        Err(e) => Err(e),
        Ok(parts) => {
            let files = files_of_field(parts, field);
            if files.len() == 0 {
                Err(UploadErrorView::MissingFile(field))
            } else if files.len() == 1 {
                Ok(files[0])
            } else {
                Err(UploadErrorView::TooManyFiles(field, files.len() as usize))
            }
        },
    }
}

/// At least one file under `field`.
pub open spec fn extract_all(
    boundary: Seq<char>,
    body: Seq<u8>,
    limits: MultipartLimitsView,
    field: Seq<char>,
) -> Result<Seq<UploadedFileView>, UploadErrorView> {
    match parse_upload(boundary, body, limits) {
        Err(e) => Err(e),
        Ok(parts) => {
            let files = files_of_field(parts, field);
            if files.len() == 0 {
                Err(UploadErrorView::MissingFile(field))
            } else {
                Ok(files)
            }
        },
    }
}

/// The single-file and the multi-file extraction agree on a payload: when
/// the field holds exactly one file both yield it, when it holds more the
/// single-file extraction refuses with their count, and a payload that does
/// not parse, or has no file for the field, is refused by both with the
/// same error.
pub proof fn lemma_single_and_multi_extraction_agree(
    boundary: Seq<char>,
    body: Seq<u8>,
    limits: MultipartLimitsView,
    field: Seq<char>,
)
    ensures
        match extract_all(boundary, body, limits, field) {
            Ok(files) => if files.len() == 1 {
                extract_one(boundary, body, limits, field) == Ok::<UploadedFileView, UploadErrorView>(files[0])
            } else {
                extract_one(boundary, body, limits, field) == Err::<UploadedFileView, UploadErrorView>(
                    UploadErrorView::TooManyFiles(field, files.len() as usize),
                )
            },
            Err(e) => extract_one(boundary, body, limits, field) == Err::<UploadedFileView, UploadErrorView>(e),
        },
{
}

/// The boundary parameter that `multer::parse_boundary` reads from a
/// `content-type` value: present only for `multipart/form-data` with a
/// `boundary` parameter.
pub uninterp spec fn multipart_boundary(content_type: Seq<char>) -> Option<Seq<char>>;

/// `multer::parse_boundary`: the boundary of a `multipart/form-data` content type.
/// Its result is named by `multipart_boundary`; which inputs parse is not stated.
#[verifier::external_body]
fn parse_boundary(content_type: &str) -> (r: Option<String>)
    ensures
        opt_view(r) == multipart_boundary(content_type@),
{
    multer::parse_boundary(content_type).ok()
}

/// `std::str::from_utf8`: the text of `bytes` when they are valid UTF-8.
#[verifier::external_body]
fn utf8_text(bytes: &[u8]) -> (r: Option<&str>)
    ensures
        match r {
            Some(s) => valid_utf8(bytes@) && s@ == decode_utf8(bytes@),
            None => !valid_utf8(bytes@),
        },
{
    std::str::from_utf8(bytes).ok()
}

pub open spec fn bytes_views(v: Seq<Vec<u8>>) -> Seq<Seq<u8>> {
    v.map_values(|x: Vec<u8>| x@)
}

pub open spec fn prepend_sections(acc: Seq<Seq<u8>>, r: Option<Seq<Seq<u8>>>) -> Option<Seq<Seq<u8>>> {
    match r {
        None => None,
        Some(ps) => Some(acc + ps),
    }
}

fn invalid_multipart(message: &str) -> (r: UploadInterceptError)
    ensures
        r@ == UploadErrorView::InvalidMultipart(message@),
{
    UploadInterceptError::InvalidMultipart(message.to_owned())
}

proof fn lemma_sections_none(rest: Seq<u8>, marker: Seq<u8>)
    requires
        marker.len() > 0,
        find_first(rest, marker) is None,
    ensures
        sections(rest, marker) == Some(Seq::<Seq<u8>>::empty()),
{
}

proof fn lemma_sections_closed(rest: Seq<u8>, marker: Seq<u8>, i: int)
    requires
        marker.len() > 0,
        find_first(rest, marker) == Some(i),
        0 <= i,
        i + marker.len() <= rest.len(),
        starts_with(rest.skip(i + marker.len()), dash_dash()),
    ensures
        sections(rest, marker) == Some(Seq::<Seq<u8>>::empty()),
{
}

proof fn lemma_sections_unclosed(rest: Seq<u8>, marker: Seq<u8>, i: int)
    requires
        marker.len() > 0,
        find_first(rest, marker) == Some(i),
        0 <= i,
        i + marker.len() <= rest.len(),
        !starts_with(rest.skip(i + marker.len()), dash_dash()),
        find_first(drop_prefix(rest.skip(i + marker.len()), crlf_bytes()), marker) is None,
    ensures
        sections(rest, marker) is None,
{
}

proof fn lemma_sections_part(rest: Seq<u8>, marker: Seq<u8>, i: int, j: int)
    requires
        marker.len() > 0,
        find_first(rest, marker) == Some(i),
        0 <= i,
        i + marker.len() <= rest.len(),
        !starts_with(rest.skip(i + marker.len()), dash_dash()),
        find_first(drop_prefix(rest.skip(i + marker.len()), crlf_bytes()), marker) == Some(j),
        0 <= j,
        j + marker.len() <= drop_prefix(rest.skip(i + marker.len()), crlf_bytes()).len(),
    ensures
        ({
            let r2 = drop_prefix(rest.skip(i + marker.len()), crlf_bytes());
            sections(rest, marker) == prepend_sections(
                seq![drop_suffix(r2.take(j), crlf_bytes())],
                sections(r2.skip(j), marker),
            )
        }),
{
    let after = rest.skip(i + marker.len());
    let r2 = drop_prefix(after, crlf_bytes());
    assert(r2.len() <= after.len());
    let part = drop_suffix(r2.take(j), crlf_bytes());
    match sections(r2.skip(j), marker) {
        None => {},
        Some(ps) => {
            assert(seq![part] + ps =~= seq![part] + ps);
        },
    }
}

proof fn lemma_prepend_assoc(a: Seq<Seq<u8>>, b: Seq<Seq<u8>>, r: Option<Seq<Seq<u8>>>)
    ensures
        prepend_sections(a, prepend_sections(b, r)) == prepend_sections(a + b, r),
{
    if let Some(ps) = r {
        assert(a + (b + ps) =~= (a + b) + ps);
    }
}

/// The parts of a multipart `body` delimited by `marker`.
#[verifier::rlimit(30)]
fn multipart_sections(body: &[u8], marker: &[u8]) -> (r: Result<Vec<Vec<u8>>, UploadInterceptError>)
    requires
        marker@.len() > 0,
    ensures
        match sections(body@, marker@) {
            None => r is Err && r->Err_0@ == UploadErrorView::InvalidMultipart(
                "multipart payload is missing a closing boundary"@,
            ),
            Some(ps) => r is Ok && bytes_views(r->Ok_0@) == ps,
        },
{
    let dashes: Vec<u8> = vec![45u8, 45u8];
    let crlf: Vec<u8> = vec![13u8, 10u8];
    let mut out: Vec<Vec<u8>> = Vec::new();
    let mut pos: usize = 0;
    assert(body@.skip(0) =~= body@);
    assert(bytes_views(out@) =~= Seq::<Seq<u8>>::empty());
    loop
        invariant
            marker@.len() > 0,
            pos <= body@.len(),
            body@.len() == body.len(),
            dashes@ == dash_dash(),
            crlf@ == crlf_bytes(),
            sections(body@, marker@) == prepend_sections(
                bytes_views(out@),
                sections(body@.skip(pos as int), marker@),
            ),
        decreases body@.len() - pos,
    {
        let ghost rest = body@.skip(pos as int);
        let found = find_bytes_from(body, pos, marker);
        if found.is_none() {
            proof {
                lemma_sections_none(rest, marker@);
                assert(bytes_views(out@) + Seq::<Seq<u8>>::empty() =~= bytes_views(out@));
            }
            return Ok(out);
        }
        let i = found.unwrap();
        let p1 = pos + i + marker.len();
        assert(rest.skip(i + marker@.len()) =~= body@.skip(p1 as int));
        if bytes_starts_with_at(body, p1, dashes.as_slice()) {
            proof {
                lemma_sections_closed(rest, marker@, i as int);
                assert(bytes_views(out@) + Seq::<Seq<u8>>::empty() =~= bytes_views(out@));
            }
            return Ok(out);
        }
        let p2 = if bytes_starts_with_at(body, p1, crlf.as_slice()) {
            p1 + 2
        } else {
            p1
        };
        assert(drop_prefix(body@.skip(p1 as int), crlf_bytes()) =~= body@.skip(p2 as int));
        let found2 = find_bytes_from(body, p2, marker);
        if found2.is_none() {
            proof {
                lemma_sections_unclosed(rest, marker@, i as int);
            }
            return Err(invalid_multipart("multipart payload is missing a closing boundary"));
        }
        let j = found2.unwrap();
        let ghost r2 = body@.skip(p2 as int);
        let end = p2 + j;
        let trailing_crlf = end - p2 >= 2 && bytes_starts_with_at(body, end - 2, crlf.as_slice());
        let part_end = if trailing_crlf {
            end - 2
        } else {
            end
        };
        proof {
            lemma_sections_part(rest, marker@, i as int, j as int);
            assert(r2.take(j as int) =~= body@.subrange(p2 as int, end as int));
            if end - p2 >= 2 {
                assert(body@.skip(end - 2).take(2) =~= r2.take(j as int).skip(j - 2));
            }
            assert(drop_suffix(r2.take(j as int), crlf_bytes()) =~= body@.subrange(
                p2 as int,
                part_end as int,
            ));
            assert(r2.skip(j as int) =~= body@.skip(end as int));
            lemma_prepend_assoc(
                bytes_views(out@),
                seq![body@.subrange(p2 as int, part_end as int)],
                sections(body@.skip(end as int), marker@),
            );
        }
        let part = copy_range(body, p2, part_end);
        let ghost old_out = out@;
        out.push(part);
        assert(bytes_views(out@) =~= bytes_views(old_out) + seq![
            body@.subrange(p2 as int, part_end as int)
        ]);
        pos = end;
    }
}

struct PartHeaders {
    field_name: Option<Vec<char>>,
    filename: Option<Vec<char>>,
    content_type: Option<Vec<char>>,
}

impl PartHeaders {
    closed spec fn hv(&self) -> PartHeadersView {
        PartHeadersView {
            field_name: opt_chars_view(self.field_name),
            filename: opt_chars_view(self.filename),
            content_type: opt_chars_view(self.content_type),
        }
    }
}

fn apply_segment(h: PartHeaders, segment: &[char]) -> (r: PartHeaders)
    ensures
        r.hv() == apply_disposition_segment(h.hv(), segment@),
{
    let t = trim_chars(segment);
    let name_eq: Vec<char> = vec!['n', 'a', 'm', 'e', '='];
    let filename_eq: Vec<char> = vec!['f', 'i', 'l', 'e', 'n', 'a', 'm', 'e', '='];
    if chars_starts_with(t.as_slice(), name_eq.as_slice()) {
        let tail = copy_range(t.as_slice(), 5, t.len());
        assert(tail@ =~= t@.skip(5));
        let v = trim_matches_chars(tail.as_slice(), '"');
        PartHeaders { field_name: Some(v), ..h }
    } else if chars_starts_with(t.as_slice(), filename_eq.as_slice()) {
        let tail = copy_range(t.as_slice(), 9, t.len());
        assert(tail@ =~= t@.skip(9));
        let v = trim_matches_chars(tail.as_slice(), '"');
        PartHeaders { filename: Some(v), ..h }
    } else {
        h
    }
}

fn header_line_error(line: &[char]) -> (r: String)
    ensures
        r@ == invalid_header_line_message(line@),
{
    let mut m = String::from_str("invalid header line `");
    let l = string_of(line);
    m.append(l.as_str());
    m.append("`");
    m
}

fn apply_line(h: PartHeaders, line: &[char]) -> (r: Result<PartHeaders, String>)
    ensures
        match apply_header_line(h.hv(), line@) {
            Ok(hv) => r is Ok && r->Ok_0.hv() == hv,
            Err(m) => r is Err && r->Err_0@ == m,
        },
{
    proof {
        crate::text::lemma_index_of_bounds(line@, ':');
    }
    match chars_index_of(line, ':') {
        None => Err(header_line_error(line)),
        Some(k) => {
            let n = line.len();
            assert(k < n);
            let name = trim_chars(copy_range(line, 0, k).as_slice());
            let value = trim_chars(copy_range(line, k + 1, line.len()).as_slice());
            assert(line@.subrange(0, k as int) =~= line@.take(k as int));
            assert(line@.subrange(k + 1, line@.len() as int) =~= line@.skip(k + 1));
            let disposition: Vec<char> = vec![
                'c', 'o', 'n', 't', 'e', 'n', 't', '-', 'd', 'i', 's', 'p', 'o', 's', 'i', 't', 'i', 'o', 'n'
            ];
            let content_type: Vec<char> = vec!['c', 'o', 'n', 't', 'e', 'n', 't', '-', 't', 'y', 'p', 'e'];
            if chars_eq_ignore_ascii_case(name.as_slice(), disposition.as_slice()) {
                let semi: Vec<char> = vec![';'];
                assert(semi@ == seq![';']);
                let segments = split_chars(value.as_slice(), semi.as_slice());
                let ghost segs = views(segments@);
                assert(segs.len() > 0) by {
                    lemma_split_nonempty(value@, seq![';']);
                }
                let mut acc = h;
                let mut i: usize = 1;
                assert(segs.skip(1) =~= segs.drop_first());
                while i < segments.len()
                    invariant
                        1 <= i <= segments@.len(),
                        segs == views(segments@),
                        apply_disposition_segments(h.hv(), segs.drop_first())
                            == apply_disposition_segments(acc.hv(), segs.skip(i as int)),
                    decreases segments@.len() - i,
                {
                    assert(segs.skip(i as int).drop_first() =~= segs.skip(i + 1));
                    assert(segs.skip(i as int)[0] == segments@[i as int]@);
                    acc = apply_segment(acc, segments[i].as_slice());
                    i += 1;
                }
                Ok(acc)
            } else if chars_eq_ignore_ascii_case(name.as_slice(), content_type.as_slice()) {
                Ok(PartHeaders { content_type: Some(value), ..h })
            } else {
                Ok(h)
            }
        },
    }
}

pub proof fn lemma_split_acc_nonempty<T>(cur: Seq<T>, rest: Seq<T>, sep: Seq<T>)
    ensures
        crate::text::split_acc(cur, rest, sep).len() > 0,
    decreases rest.len(),
{
    if rest.len() == 0 {
    } else if sep.len() > 0 && starts_with(rest, sep) {
        lemma_split_acc_nonempty(Seq::<T>::empty(), rest.skip(sep.len() as int), sep);
    } else {
        lemma_split_acc_nonempty(cur.push(rest[0]), rest.drop_first(), sep);
    }
}

pub proof fn lemma_split_nonempty<T>(s: Seq<T>, sep: Seq<T>)
    ensures
        split(s, sep).len() > 0,
{
    lemma_split_acc_nonempty(Seq::<T>::empty(), s, sep);
}

fn read_part_headers(header_text: &[char]) -> (r: Result<PartHeaders, String>)
    ensures
        match apply_header_lines(no_part_headers(), split(header_text@, crlf_chars())) {
            Ok(hv) => r is Ok && r->Ok_0.hv() == hv,
            Err(m) => r is Err && r->Err_0@ == m,
        },
{
    let crlf: Vec<char> = vec!['\r', '\n'];
    let lines = split_chars(header_text, crlf.as_slice());
    let ghost ls = views(lines@);
    let mut acc = PartHeaders { field_name: None, filename: None, content_type: None };
    let mut i: usize = 0;
    assert(ls.skip(0) =~= ls);
    while i < lines.len()
        invariant
            i <= lines@.len(),
            ls == views(lines@),
            ls == split(header_text@, crlf_chars()),
            apply_header_lines(no_part_headers(), ls) == apply_header_lines(
                acc.hv(),
                ls.skip(i as int),
            ),
        decreases lines@.len() - i,
    {
        assert(ls.skip(i as int).drop_first() =~= ls.skip(i + 1));
        assert(ls.skip(i as int)[0] == lines@[i as int]@);
        match apply_line(acc, lines[i].as_slice()) {
            Ok(h2) => {
                acc = h2;
            },
            Err(m) => {
                return Err(m);
            },
        }
        i += 1;
    }
    Ok(acc)
}

enum PartResult {
    Skip,
    File(String, UploadedFile),
    Fail(UploadInterceptError),
}

impl PartResult {
    closed spec fn pv(&self) -> PartOutcome {
        match self {
            PartResult::Skip => PartOutcome::Skip,
            PartResult::File(f, file) => PartOutcome::File(f@, file@),
            PartResult::Fail(e) => PartOutcome::Fail(e@),
        }
    }
}

fn allows_field(limits: &MultipartLimits, field: &String) -> (r: bool)
    ensures
        r == limits@.allows_field(field@),
{
    limits.allowed_fields.len() == 0 || contains_string(&limits.allowed_fields, field)
}

fn read_part(part: &[u8], limits: &MultipartLimits) -> (r: PartResult)
    ensures
        r.pv() == parse_part(part@, limits@),
{
    let separator: Vec<u8> = vec![13u8, 10u8, 13u8, 10u8];
    let i = match find_bytes(part, separator.as_slice()) {
        None => {
            return PartResult::Fail(invalid_multipart("missing header separator"));
        },
        Some(i) => i,
    };
    proof {
        assert(separator@ == header_end_bytes());
        crate::text::lemma_find_first_bounds(part@, header_end_bytes());
    }
    assert(crate::text::occurs_at(part@, header_end_bytes(), i as int));
    let n = part.len();
    assert(i + 4 <= n);
    let header_bytes = copy_range(part, 0, i);
    let content = copy_range(part, i + 4, part.len());
    assert(header_bytes@ =~= part@.take(i as int));
    assert(content@ =~= part@.skip(i + 4));
    let text = match utf8_text(header_bytes.as_slice()) {
        None => {
            return PartResult::Fail(invalid_multipart("multipart headers must be valid UTF-8"));
        },
        Some(t) => t,
    };
    let header_chars = chars_of(text);
    let h = match read_part_headers(header_chars.as_slice()) {
        Err(m) => {
            return PartResult::Fail(UploadInterceptError::InvalidMultipart(m));
        },
        Ok(h) => h,
    };
    let field = match h.field_name {
        None => {
            return PartResult::Fail(invalid_multipart("multipart field is missing a name"));
        },
        Some(f) => string_of(f.as_slice()),
    };
    let filename = match h.filename {
        None => {
            return PartResult::Skip;
        },
        Some(f) => string_of(f.as_slice()),
    };
    let content_type: Option<String> = match h.content_type {
        None => None,
        Some(c) => Some(string_of(c.as_slice())),
    };
    if !allows_field(limits, &field) {
        return PartResult::Fail(UploadInterceptError::UnknownField { name: field });
    }
    let mime_allowed = match &content_type {
        Some(c) => limits.allows_mime_type(Some(c.as_str())),
        None => limits.allows_mime_type(None),
    };
    if !mime_allowed {
        return PartResult::Fail(UploadInterceptError::DisallowedMimeType { mime_type: content_type });
    }
    let limit = match limits.field_limit_for(field.as_str()) {
        Some(l) => Some(l),
        None => limits.per_field_limit(),
    };
    let actual = content.len();
    if let Some(l) = limit {
        if actual as u64 > l {
            return PartResult::Fail(
                UploadInterceptError::FieldTooLarge { field, limit: l, actual },
            );
        }
    }
    let file = UploadedFile { filename, content_type, bytes: content };
    PartResult::File(field, file)
}

struct ParsedMultipartFile {
    field_name: String,
    file: UploadedFile,
}

pub open spec fn parsed_prefix(
    acc: Seq<(Seq<char>, UploadedFileView)>,
    r: Result<Seq<(Seq<char>, UploadedFileView)>, UploadErrorView>,
) -> Result<Seq<(Seq<char>, UploadedFileView)>, UploadErrorView> {
    match r {
        Err(e) => Err(e),
        Ok(rest) => Ok(acc + rest),
    }
}

closed spec fn parsed_views(v: Seq<ParsedMultipartFile>) -> Seq<(Seq<char>, UploadedFileView)> {
    v.map_values(|p: ParsedMultipartFile| (p.field_name@, p.file@))
}

fn concat_bytes(a: &[u8], b: &[u8]) -> (r: Vec<u8>)
    ensures
        r@ == a@ + b@,
{
    let mut r = copy_range(a, 0, a.len());
    let mut i: usize = 0;
    assert(r@ =~= a@ + b@.take(0));
    while i < b.len()
        invariant
            i <= b@.len(),
            r@ == a@ + b@.take(i as int),
        decreases b@.len() - i,
    {
        r.push(b[i]);
        i += 1;
        assert(r@ =~= a@ + b@.take(i as int));
    }
    assert(b@.take(b@.len() as int) =~= b@);
    r
}

fn parse_uploaded_files(boundary: &str, body: &[u8], limits: &MultipartLimits) -> (r: Result<
    Vec<ParsedMultipartFile>,
    UploadInterceptError,
>)
    ensures
        match parse_upload(boundary@, body@, limits@) {
            Ok(ps) => r is Ok && parsed_views(r->Ok_0@) == ps,
            Err(e) => r is Err && r->Err_0@ == e,
        },
{
    if let Some(limit) = limits.whole_stream_limit() {
        if body.len() as u64 > limit {
            return Err(UploadInterceptError::StreamTooLarge { limit, actual: body.len() });
        }
    }
    let dashes: Vec<u8> = vec![45u8, 45u8];
    let boundary_bytes = boundary.as_bytes_vec();
    let marker = concat_bytes(dashes.as_slice(), boundary_bytes.as_slice());
    assert(marker@ == boundary_marker(boundary@));
    let parts = multipart_sections(body, marker.as_slice())?;
    let ghost ps = bytes_views(parts@);
    let mut files: Vec<ParsedMultipartFile> = Vec::new();
    let mut i: usize = 0;
    assert(ps.skip(0) =~= ps);
    assert(parsed_views(files@) + Seq::<(Seq<char>, UploadedFileView)>::empty() =~= parsed_views(files@));
    while i < parts.len()
        invariant
            i <= parts@.len(),
            ps == bytes_views(parts@),
            parse_upload(boundary@, body@, limits@) == parse_parts(ps, limits@),
            parse_parts(ps, limits@) == parsed_prefix(
                parsed_views(files@),
                parse_parts(ps.skip(i as int), limits@),
            ),
        decreases parts@.len() - i,
    {
        assert(ps.skip(i as int).drop_first() =~= ps.skip(i + 1));
        assert(ps.skip(i as int)[0] == parts@[i as int]@);
        match read_part(parts[i].as_slice(), limits) {
            PartResult::Skip => {},
            PartResult::Fail(e) => {
                return Err(e);
            },
            PartResult::File(field_name, file) => {
                let ghost old_files = files@;
                files.push(ParsedMultipartFile { field_name, file });
                proof {
                    assert(parsed_views(files@) =~= parsed_views(old_files) + seq![
                        parsed_views(files@).last()
                    ]);
                    match parse_parts(ps.skip(i + 1), limits@) {
                        Ok(rest) => {
                            assert(parsed_views(old_files) + (seq![parsed_views(files@).last()]
                                + rest) =~= parsed_views(files@) + rest);
                        },
                        Err(_) => {},
                    }
                }
            },
        }
        i += 1;
    }
    assert(ps.skip(parts@.len() as int) =~= Seq::<Seq<u8>>::empty());
    Ok(files)
}

pub open spec fn file_result_view(r: Result<UploadedFile, UploadInterceptError>) -> Result<
    UploadedFileView,
    UploadErrorView,
> {
    match r {
        Ok(f) => Ok(f@),
        Err(e) => Err(e@),
    }
}

pub open spec fn files_view(v: Seq<UploadedFile>) -> Seq<UploadedFileView> {
    v.map_values(|f: UploadedFile| f@)
}

pub open spec fn files_result_view(r: Result<Vec<UploadedFile>, UploadInterceptError>) -> Result<
    Seq<UploadedFileView>,
    UploadErrorView,
> {
    match r {
        Ok(fs) => Ok(files_view(fs@)),
        Err(e) => Err(e@),
    }
}

/// The files of `parsed` uploaded under `field`, in order.
fn select_field(parsed: Vec<ParsedMultipartFile>, field: &String) -> (r: Vec<UploadedFile>)
    ensures
        files_view(r@) == files_of_field(parsed_views(parsed@), field@),
{
    let ghost ps = parsed_views(parsed@);
    let mut out: Vec<UploadedFile> = Vec::new();
    let mut rest = parsed;
    // walk from the back so that `pop` hands the items out
    let mut tail: Vec<UploadedFile> = Vec::new();
    let mut i: usize = rest.len();
    assert(ps.skip(ps.len() as int) =~= Seq::<(Seq<char>, UploadedFileView)>::empty());
    while i > 0
        invariant
            i == rest@.len(),
            i <= ps.len(),
            parsed_views(rest@) == ps.take(i as int),
            files_view(tail@).reverse() == files_of_field(ps.skip(i as int), field@),
        decreases i,
    {
        let ghost before = rest@;
        let item = rest.pop().unwrap();
        assert(parsed_views(rest@) =~= ps.take(i - 1));
        assert(ps[i - 1] == (item.field_name@, item.file@)) by {
            assert(parsed_views(before)[i - 1] == ps.take(i as int)[i - 1]);
        }
        assert(ps.skip(i - 1).drop_first() =~= ps.skip(i as int));
        if item.field_name == *field {
            let ghost old_tail = tail@;
            tail.push(item.file);
            assert(files_view(tail@) =~= files_view(old_tail).push(item.file@));
            assert(files_view(tail@).reverse() =~= seq![item.file@] + files_view(old_tail).reverse());
        }
        i -= 1;
    }
    assert(ps.skip(0) =~= ps);
    // restore payload order
    let mut j: usize = tail.len();
    while j > 0
        invariant
            j == tail@.len(),
            files_view(out@) + files_view(tail@).reverse() == files_of_field(ps, field@),
        decreases j,
    {
        let ghost before_tail = tail@;
        let ghost before_out = out@;
        let f = tail.pop().unwrap();
        out.push(f);
        assert(files_view(before_tail).reverse() =~= seq![f@] + files_view(tail@).reverse());
        assert(files_view(out@) =~= files_view(before_out).push(f@));
        assert(files_view(out@) + files_view(tail@).reverse() =~= files_view(before_out) + files_view(before_tail).reverse());
        j -= 1;
    }
    assert(files_view(tail@).reverse() =~= Seq::<UploadedFileView>::empty());
    assert(files_view(out@) + Seq::<UploadedFileView>::empty() =~= files_view(out@));
    out
}

/// Upload-layer helper for extracting a single file from a multipart payload.
#[derive(Debug, Clone, PartialEq, Eq)]
pub struct FileInterceptor {
    field_name: String,
    limits: MultipartLimits,
}

impl FileInterceptor {
    pub closed spec fn field(&self) -> Seq<char> {
        self.field_name@
    }

    pub closed spec fn limits_view(&self) -> MultipartLimitsView {
        self.limits@
    }

    /// A single-file interceptor for `field_name`, with no limits.
    pub fn new(field_name: &str) -> (r: Self)
        ensures
            r.field() == field_name@,
            r.limits_view() == MultipartLimits::new_view(),
    {
        FileInterceptor { field_name: field_name.to_owned(), limits: MultipartLimits::new() }
    }

    /// Apply multipart limits to this interceptor.
    pub fn with_limits(self, limits: MultipartLimits) -> (r: Self)
        ensures
            r.field() == self.field(),
            r.limits_view() == limits@,
    {
        FileInterceptor { limits, ..self }
    }

    /// The single file of the field, in a body whose multipart boundary is `boundary`.
    pub fn extract_with_boundary(&self, boundary: &str, body: &[u8]) -> (r: Result<
        UploadedFile,
        UploadInterceptError,
    >)
        ensures
            file_result_view(r) == extract_one(boundary@, body@, self.limits_view(), self.field()),
    {
        let parsed = parse_uploaded_files(boundary, body, &self.limits)?;
        let mut files = select_field(parsed, &self.field_name);
        let count = files.len();
        if count == 0 {
            Err(UploadInterceptError::MissingFile { field: self.field_name.clone() })
        } else if count == 1 {
            let f = files.pop().unwrap();
            Ok(f)
        } else {
            Err(UploadInterceptError::TooManyFiles { field: self.field_name.clone(), count })
        }
    }

    /// Extract the single file of the field from a multipart body.
    pub fn extract_from_bytes(&self, content_type: &str, body: &[u8]) -> (r: Result<
        UploadedFile,
        UploadInterceptError,
    >)
        ensures
            match multipart_boundary(content_type@) {
                None => r is Err && r->Err_0@ == UploadErrorView::MissingMultipartBoundary,
                Some(b) => file_result_view(r) == extract_one(
                    b,
                    body@,
                    self.limits_view(),
                    self.field(),
                ),
            },
    {
        match parse_boundary(content_type) {
            None => Err(UploadInterceptError::MissingMultipartBoundary),
            Some(b) => self.extract_with_boundary(b.as_str(), body),
        }
    }
}

/// Upload-layer helper for extracting every file of one field.
#[derive(Debug, Clone, PartialEq, Eq)]
pub struct FilesInterceptor {
    field_name: String,
    limits: MultipartLimits,
}

impl FilesInterceptor {
    pub closed spec fn field(&self) -> Seq<char> {
        self.field_name@
    }

    pub closed spec fn limits_view(&self) -> MultipartLimitsView {
        self.limits@
    }

    /// A multi-file interceptor for `field_name`, with no limits.
    pub fn new(field_name: &str) -> (r: Self)
        ensures
            r.field() == field_name@,
            r.limits_view() == MultipartLimits::new_view(),
    {
        FilesInterceptor { field_name: field_name.to_owned(), limits: MultipartLimits::new() }
    }

    /// Apply multipart limits to this interceptor.
    pub fn with_limits(self, limits: MultipartLimits) -> (r: Self)
        ensures
            r.field() == self.field(),
            r.limits_view() == limits@,
    {
        FilesInterceptor { limits, ..self }
    }

    /// All files of the field, in a body whose multipart boundary is `boundary`.
    pub fn extract_with_boundary(&self, boundary: &str, body: &[u8]) -> (r: Result<
        Vec<UploadedFile>,
        UploadInterceptError,
    >)
        ensures
            files_result_view(r) == extract_all(boundary@, body@, self.limits_view(), self.field()),
    {
        let parsed = parse_uploaded_files(boundary, body, &self.limits)?;
        let files = select_field(parsed, &self.field_name);
        if files.len() == 0 {
            return Err(UploadInterceptError::MissingFile { field: self.field_name.clone() });
        }
        Ok(files)
    }

    /// Extract all files of the field from a multipart body.
    pub fn extract_from_bytes(&self, content_type: &str, body: &[u8]) -> (r: Result<
        Vec<UploadedFile>,
        UploadInterceptError,
    >)
        ensures
            match multipart_boundary(content_type@) {
                None => r is Err && r->Err_0@ == UploadErrorView::MissingMultipartBoundary,
                Some(b) => files_result_view(r) == extract_all(
                    b,
                    body@,
                    self.limits_view(),
                    self.field(),
                ),
            },
    {
        match parse_boundary(content_type) {
            None => Err(UploadInterceptError::MissingMultipartBoundary),
            Some(b) => self.extract_with_boundary(b.as_str(), body),
        }
    }
}

impl UploadErrorView {
    /// The human-readable message of each error.
    pub open spec fn message(self) -> Seq<char> {
        match self {
            UploadErrorView::MissingMultipartBoundary => "missing multipart boundary in content type"@,
            UploadErrorView::InvalidMultipart(e) => "invalid multipart payload: "@ + e,
            UploadErrorView::UnknownField(name) => "multipart field `"@ + name + "` is not allowed"@,
            UploadErrorView::MissingFile(field) => "missing uploaded file for field `"@ + field
                + "`"@,
            UploadErrorView::TooManyFiles(field, count) => "expected one file for field `"@ + field
                + "`, found "@ + decimal(count as nat),
            UploadErrorView::FieldTooLarge(field, limit, actual) => "multipart field `"@ + field
                + "` exceeded size limit "@ + decimal(limit as nat) + " bytes with "@ + decimal(
                actual as nat,
            ) + " bytes"@,
            UploadErrorView::StreamTooLarge(limit, actual) =>
                "multipart payload exceeded size limit "@ + decimal(limit as nat) + " bytes with "@
                    + decimal(actual as nat) + " bytes"@,
            UploadErrorView::DisallowedMimeType(mime) => match mime {
                Some(m) => "multipart MIME type `"@ + m + "` is not allowed"@,
                None => "multipart file is missing an allowed MIME type"@,
            },
        }
    }
}

impl UploadInterceptError {
    /// The human-readable message of this error (what `Display` prints).
    pub fn message(&self) -> (r: String)
        ensures
            r@ == self@.message(),
    {
        match self {
            UploadInterceptError::MissingMultipartBoundary => String::from_str(
                "missing multipart boundary in content type",
            ),
            UploadInterceptError::InvalidMultipart(e) => {
                let mut m = String::from_str("invalid multipart payload: ");
                m.append(e.as_str());
                m
            },
            UploadInterceptError::UnknownField { name } => {
                let mut m = String::from_str("multipart field `");
                m.append(name.as_str());
                m.append("` is not allowed");
                m
            },
            UploadInterceptError::MissingFile { field } => {
                let mut m = String::from_str("missing uploaded file for field `");
                m.append(field.as_str());
                m.append("`");
                m
            },
            UploadInterceptError::TooManyFiles { field, count } => {
                let mut m = String::from_str("expected one file for field `");
                m.append(field.as_str());
                m.append("`, found ");
                let c = decimal_string(*count as u64);
                m.append(c.as_str());
                m
            },
            UploadInterceptError::FieldTooLarge { field, limit, actual } => {
                let mut m = String::from_str("multipart field `");
                m.append(field.as_str());
                m.append("` exceeded size limit ");
                let l = decimal_string(*limit);
                m.append(l.as_str());
                m.append(" bytes with ");
                let a = decimal_string(*actual as u64);
                m.append(a.as_str());
                m.append(" bytes");
                m
            },
            UploadInterceptError::StreamTooLarge { limit, actual } => {
                let mut m = String::from_str("multipart payload exceeded size limit ");
                let l = decimal_string(*limit);
                m.append(l.as_str());
                m.append(" bytes with ");
                let a = decimal_string(*actual as u64);
                m.append(a.as_str());
                m.append(" bytes");
                m
            },
            UploadInterceptError::DisallowedMimeType { mime_type } => match mime_type {
                Some(mt) => {
                    let mut m = String::from_str("multipart MIME type `");
                    m.append(mt.as_str());
                    m.append("` is not allowed");
                    m
                },
                None => String::from_str("multipart file is missing an allowed MIME type"),
            },
        }
    }
}

} // verus!
