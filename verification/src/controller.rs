//! Controller-side helpers: the client address, handler guard contracts and
//! the handler registry key.
use vstd::prelude::*;
use vstd::string::*;
use crate::request::NivasaRequest;
use crate::text::{
    chars_eq_ignore_ascii_case, chars_index_of, chars_of, copy_range, eq_ignore_ascii_case,
    index_of, split, split_chars, str_eq, string_of, trim, trim_chars, trim_matches,
    trim_matches_chars, views,
};

verus! {

/// Captured client IP value for controller-side `#[ip]` extraction.
#[derive(Debug, Clone, PartialEq, Eq, Hash)]
pub struct ClientIp(String);

impl View for ClientIp {
    type V = Seq<char>;

    closed spec fn view(&self) -> Seq<char> {
        self.0@
    }
}

impl ClientIp {
    /// A client IP wrapper holding `value`.
    pub fn new(value: &str) -> (r: Self)
        ensures
            r@ == value@,
    {
        ClientIp(value.to_owned())
    }

    /// The captured IP text.
    pub fn as_str(&self) -> (r: &str)
        ensures
            r@ == self@,
    {
        self.0.as_str()
    }

    /// Consume the wrapper into its string value.
    pub fn into_string(self) -> (r: String)
        ensures
            r@ == self@,
    {
        self.0
    }
}

impl ClientIp {
    /// The address holding `value` as it is.
    pub closed spec fn of_string(value: String) -> ClientIp {
        ClientIp(value)
    }
}

impl From<String> for ClientIp {
    /// The address held as given.
    fn from(value: String) -> (r: Self)
        ensures
            r@ == value@,
    {
        ClientIp(value)
    }
}

impl vstd::std_specs::convert::FromSpecImpl<String> for ClientIp {
    open spec fn obeys_from_spec() -> bool {
        true
    }

    open spec fn from_spec(value: String) -> Self {
        ClientIp::of_string(value)
    }
}

impl<'a> From<&'a str> for ClientIp {
    /// The address holding a copy of the text.
    fn from(value: &'a str) -> (r: Self)
        ensures
            r@ == value@,
    {
        ClientIp(value.to_owned())
    }
}

impl<'a> vstd::std_specs::convert::FromSpecImpl<&'a str> for ClientIp {
    /// The copy of the text is a new `String` that no spec value pins down,
    /// so `from` is described by its own contract (the view of the text).
    open spec fn obeys_from_spec() -> bool {
        false
    }

    open spec fn from_spec(value: &'a str) -> Self {
        ClientIp::of_string(choose|s: String| s@ == value@)
    }
}

/// Normalized guard contract for one controller handler.
#[derive(Debug, Clone, PartialEq, Eq)]
pub struct ControllerGuardExecutionContract<'a> {
    handler: &'a str,
    guards: Vec<&'a str>,
}

pub open spec fn strs_view(v: Seq<&str>) -> Seq<Seq<char>> {
    v.map_values(|s: &str| s@)
}

impl<'a> ControllerGuardExecutionContract<'a> {
    pub closed spec fn handler_view(&self) -> Seq<char> {
        self.handler@
    }

    pub closed spec fn guards_view(&self) -> Seq<Seq<char>> {
        strs_view(self.guards@)
    }

    fn new(handler: &'a str, guards: Vec<&'a str>) -> (r: Self)
        ensures
            r.handler_view() == handler@,
            r.guards_view() == strs_view(guards@),
    {
        ControllerGuardExecutionContract { handler, guards }
    }

    /// The controller handler this guard contract applies to.
    pub fn handler(&self) -> (r: &'a str)
        ensures
            r@ == self.handler_view(),
    {
        self.handler
    }

    /// Ordered guard names to resolve and execute for this handler.
    pub fn guards(&self) -> (r: &[&'a str])
        ensures
            strs_view(r@) == self.guards_view(),
    {
        self.guards.as_slice()
    }
}

/// The guards declared for `handler` by the first metadata entry naming it.
pub open spec fn handler_guards(metadata: Seq<(Seq<char>, Seq<Seq<char>>)>, handler: Seq<char>) -> Seq<
    Seq<char>,
>
    decreases metadata.len(),
{
    if metadata.len() == 0 {
        Seq::empty()
    } else if metadata[0].0 == handler {
        metadata[0].1
    } else {
        handler_guards(metadata.drop_first(), handler)
    }
}

pub open spec fn metadata_view(v: Seq<(&str, Vec<&str>)>) -> Seq<(Seq<char>, Seq<Seq<char>>)> {
    v.map_values(|e: (&str, Vec<&str>)| (e.0@, strs_view(e.1@)))
}

/// Controller-level guards first, then the handler's own guards.
pub open spec fn resolved_guards(
    handler: Seq<char>,
    controller_guards: Seq<Seq<char>>,
    metadata: Seq<(Seq<char>, Seq<Seq<char>>)>,
) -> Seq<Seq<char>> {
    controller_guards + handler_guards(metadata, handler)
}

fn find_handler(metadata: &[(&str, Vec<&str>)], handler: &str) -> (r: Option<usize>)
    ensures
        match r {
            Some(k) => k < metadata@.len() && handler_guards(metadata_view(metadata@), handler@)
                == strs_view(metadata@[k as int].1@),
            None => handler_guards(metadata_view(metadata@), handler@) == Seq::<Seq<char>>::empty(),
        },
{
    let ghost md = metadata_view(metadata@);
    let mut k: usize = 0;
    assert(md.skip(0) =~= md);
    while k < metadata.len()
        invariant
            k <= metadata@.len(),
            md == metadata_view(metadata@),
            handler_guards(md, handler@) == handler_guards(md.skip(k as int), handler@),
        decreases metadata@.len() - k,
    {
        assert(md.skip(k as int).drop_first() =~= md.skip(k + 1));
        if str_eq(metadata[k].0, handler) {
            return Some(k);
        }
        k += 1;
    }
    assert(md.skip(metadata@.len() as int) =~= Seq::<(Seq<char>, Seq<Seq<char>>)>::empty());
    None
}

/// Resolve the guard metadata for one controller handler into a single
/// execution contract: controller-level guards first, then the guards of the
/// first metadata entry for `handler`; `None` when there are none.
pub fn resolve_controller_guard_execution<'a>(
    handler: &'a str,
    controller_guards: &[&'a str],
    handler_guard_metadata: &[(&'a str, Vec<&'a str>)],
) -> (r: Option<ControllerGuardExecutionContract<'a>>)
    ensures
        ({
            let guards = resolved_guards(
                handler@,
                strs_view(controller_guards@),
                metadata_view(handler_guard_metadata@),
            );
            match r {
                None => guards.len() == 0,
                Some(c) => guards.len() > 0 && c.handler_view() == handler@ && c.guards_view()
                    == guards,
            }
        }),
{
    let mut guards: Vec<&'a str> = Vec::new();
    let mut i: usize = 0;
    while i < controller_guards.len()
        invariant
            i <= controller_guards@.len(),
            strs_view(guards@) == strs_view(controller_guards@.take(i as int)),
        decreases controller_guards@.len() - i,
    {
        let ghost before = guards@;
        guards.push(controller_guards[i]);
        assert(strs_view(guards@) =~= strs_view(before).push(controller_guards@[i as int]@));
        assert(strs_view(controller_guards@.take(i + 1)) =~= strs_view(
            controller_guards@.take(i as int),
        ).push(controller_guards@[i as int]@));
        i += 1;
    }
    assert(controller_guards@.take(controller_guards@.len() as int) =~= controller_guards@);
    let ghost md = metadata_view(handler_guard_metadata@);
    let found = find_handler(handler_guard_metadata, handler);
    match found {
        Some(k) => {
            let extra = &handler_guard_metadata[k].1;
            assert(handler_guards(md, handler@) == strs_view(extra@));
            let ghost base = strs_view(guards@);
            let mut j: usize = 0;
            assert(extra@.take(0) =~= Seq::<&str>::empty());
            assert(base + strs_view(extra@.take(0)) =~= base);
            while j < extra.len()
                invariant
                    j <= extra@.len(),
                    strs_view(guards@) == base + strs_view(extra@.take(j as int)),
                decreases extra@.len() - j,
            {
                let ghost before = guards@;
                guards.push(extra[j]);
                assert(strs_view(guards@) =~= strs_view(before).push(extra@[j as int]@));
                assert(strs_view(extra@.take(j + 1)) =~= strs_view(extra@.take(j as int)).push(
                    extra@[j as int]@,
                ));
                j += 1;
            }
            assert(extra@.take(extra@.len() as int) =~= extra@);
        },
        None => {
            assert(strs_view(guards@) =~= strs_view(controller_guards@) + handler_guards(
                md,
                handler@,
            ));
        },
    }
    if guards.len() == 0 {
        None
    } else {
        Some(ControllerGuardExecutionContract::new(handler, guards))
    }
}

/// Key of a controller route handler: trimmed path and handler joined by `::`.
pub open spec fn route_handler_key(path: Seq<char>, handler: Seq<char>) -> Seq<char> {
    trim(path) + seq![':', ':'] + trim(handler)
}

pub fn controller_route_handler_key(path: &str, handler: &str) -> (r: String)
    ensures
        r@ == route_handler_key(path@, handler@),
{
    let p = trim_chars(chars_of(path).as_slice());
    let h = trim_chars(chars_of(handler).as_slice());
    let mut out = string_of(p.as_slice());
    out.append("::");
    let hs = string_of(h.as_slice());
    out.append(hs.as_str());
    proof {
        reveal_strlit("::");
    }
    out
}

/// The trimmed text of a header, when present, visible ASCII and non-empty.
pub open spec fn trimmed_header(text: Option<Seq<char>>) -> Option<Seq<char>> {
    match text {
        Some(t) => if trim(t).len() > 0 {
            Some(trim(t))
        } else {
            None
        },
        None => None,
    }
}

/// The first non-empty trimmed piece.
pub open spec fn first_nonempty_trimmed(pieces: Seq<Seq<char>>) -> Option<Seq<char>>
    decreases pieces.len(),
{
    if pieces.len() == 0 {
        None
    } else if trim(pieces[0]).len() > 0 {
        Some(trim(pieces[0]))
    } else {
        first_nonempty_trimmed(pieces.drop_first())
    }
}

/// The address of a `for=` parameter of a `Forwarded` header element.
pub open spec fn forwarded_for_part(part: Seq<char>) -> Option<Seq<char>> {
    match index_of(part, '=') {
        None => None,
        Some(k) => {
            let name = trim(part.take(k));
            let value = trim_matches(trim(part.skip(k + 1)), '"');
            if eq_ignore_ascii_case(name, seq!['f', 'o', 'r']) && value.len() > 0 {
                Some(value)
            } else {
                None
            }
        },
    }
}

pub open spec fn first_forwarded_for(parts: Seq<Seq<char>>) -> Option<Seq<char>>
    decreases parts.len(),
{
    if parts.len() == 0 {
        None
    } else {
        match forwarded_for_part(parts[0]) {
            Some(v) => Some(v),
            None => first_forwarded_for(parts.drop_first()),
        }
    }
}

/// Where a controller finds the client address: the transport-recorded
/// address, then `x-forwarded-for` (first entry), `x-real-ip`, and the `for=`
/// parameter of `forwarded`; each header given by its text.
pub open spec fn client_ip_from(
    recorded: Option<Seq<char>>,
    forwarded_for: Option<Seq<char>>,
    real_ip: Option<Seq<char>>,
    forwarded: Option<Seq<char>>,
) -> Option<Seq<char>> {
    let recorded = match recorded {
        Some(ip) => if trim(ip).len() > 0 {
            Some(trim(ip))
        } else {
            None
        },
        None => None,
    };
    if recorded is Some {
        recorded
    } else {
        let xff = match trimmed_header(forwarded_for) {
            Some(v) => first_nonempty_trimmed(split(v, seq![','])),
            None => None,
        };
        if xff is Some {
            xff
        } else {
            let real_ip_text = trimmed_header(real_ip);
            if real_ip_text is Some {
                real_ip_text
            } else {
                match trimmed_header(forwarded) {
                    Some(v) => first_forwarded_for(split(v, seq![';'])),
                    None => None,
                }
            }
        }
    }
}

pub open spec fn header_bytes(name: Seq<char>) -> Seq<u8> {
    vstd::utf8::encode_utf8(name)
}

/// The client address of a request.
pub open spec fn client_ip_of(request: crate::request::RequestView) -> Option<Seq<char>> {
    client_ip_from(
        request.client_ip,
        request.header_text(header_bytes("x-forwarded-for"@)),
        request.header_text(header_bytes("x-real-ip"@)),
        request.header_text(header_bytes("forwarded"@)),
    )
}

/// Pieces that are all blank once trimmed have no first non-blank piece.
proof fn lemma_blank_pieces_have_no_address(pieces: Seq<Seq<char>>)
    requires
        forall|i: int| 0 <= i < pieces.len() ==> #[trigger] trim(pieces[i]).len() == 0,
    ensures
        first_nonempty_trimmed(pieces) is None,
    decreases pieces.len(),
{
    if pieces.len() > 0 {
        assert(trim(pieces[0]).len() == 0);
        assert forall|i: int| 0 <= i < pieces.drop_first().len() implies #[trigger] trim(
            pieces.drop_first()[i],
        ).len() == 0 by {
            assert(pieces.drop_first()[i] == pieces[i + 1]);
        }
        lemma_blank_pieces_have_no_address(pieces.drop_first());
    }
}

/// The first non-blank piece, trimmed, is what `first_nonempty_trimmed` gives.
proof fn lemma_first_nonblank_piece(pieces: Seq<Seq<char>>, k: int)
    requires
        0 <= k < pieces.len(),
        trim(pieces[k]).len() > 0,
        forall|i: int| 0 <= i < k ==> #[trigger] trim(pieces[i]).len() == 0,
    ensures
        first_nonempty_trimmed(pieces) == Some(trim(pieces[k])),
    decreases k,
{
    if k > 0 {
        assert(trim(pieces[0]).len() == 0);
        let rest = pieces.drop_first();
        assert(rest[k - 1] == pieces[k]);
        assert forall|i: int| 0 <= i < k - 1 implies #[trigger] trim(rest[i]).len() == 0 by {
            assert(rest[i] == pieces[i + 1]);
        }
        lemma_first_nonblank_piece(rest, k - 1);
    }
}

/// The comma-separated entries of a request's `x-forwarded-for` text.
pub open spec fn forwarded_for_entries(request: crate::request::RequestView) -> Seq<Seq<char>> {
    split(trim(request.header_text(header_bytes("x-forwarded-for"@))->0), seq![','])
}

/// The client address of a request, in order of precedence: a non-blank
/// address recorded for the connection is the answer, trimmed; without one,
/// and without a usable `x-forwarded-for` entry (the header is absent or
/// every comma-separated entry is blank), a non-blank `x-real-ip` text is
/// the answer, trimmed. Before `x-real-ip` comes `x-forwarded-for`: with no
/// recorded address, its first non-blank entry, trimmed, is the answer.
pub proof fn lemma_client_ip_precedence(request: crate::request::RequestView)
    ensures
        request.client_ip matches Some(ip) ==> (trim(ip).len() > 0 ==> client_ip_of(request) == Some(trim(ip))),
        forall|k: int|
            #![trigger trim(forwarded_for_entries(request)[k])]
            (request.client_ip matches Some(ip) ==> trim(ip).len() == 0)
                && request.header_text(header_bytes("x-forwarded-for"@)) is Some
                && trim(request.header_text(header_bytes("x-forwarded-for"@))->0).len() > 0
                && 0 <= k < forwarded_for_entries(request).len()
                && trim(forwarded_for_entries(request)[k]).len() > 0
                && (forall|i: int| 0 <= i < k ==> #[trigger] trim(forwarded_for_entries(request)[i]).len() == 0)
                ==> client_ip_of(request) == Some(trim(forwarded_for_entries(request)[k])),
        ({
            let xff = request.header_text(header_bytes("x-forwarded-for"@));
            let real_ip = request.header_text(header_bytes("x-real-ip"@));
            &&& (request.client_ip matches Some(ip) ==> trim(ip).len() == 0)
            &&& (xff matches Some(x) ==> forall|i: int|
                0 <= i < split(trim(x), seq![',']).len() ==> #[trigger] trim(
                    split(trim(x), seq![','])[i],
                ).len() == 0)
            &&& real_ip matches Some(t) && trim(t).len() > 0
        }) ==> client_ip_of(request) == Some(trim(request.header_text(header_bytes("x-real-ip"@))->0)),
{
    let xff = request.header_text(header_bytes("x-forwarded-for"@));
    assert forall|k: int|
        #![trigger trim(forwarded_for_entries(request)[k])]
        (request.client_ip matches Some(ip) ==> trim(ip).len() == 0)
            && xff is Some
            && trim(xff->0).len() > 0
            && 0 <= k < forwarded_for_entries(request).len()
            && trim(forwarded_for_entries(request)[k]).len() > 0
            && (forall|i: int| 0 <= i < k ==> #[trigger] trim(forwarded_for_entries(request)[i]).len() == 0)
        implies client_ip_of(request) == Some(trim(forwarded_for_entries(request)[k])) by {
        lemma_first_nonblank_piece(forwarded_for_entries(request), k);
    }
    if let Some(x) = xff {
        if trim(x).len() > 0 && forall|i: int|
            0 <= i < split(trim(x), seq![',']).len() ==> #[trigger] trim(split(trim(x), seq![','])[i]).len() == 0 {
            lemma_blank_pieces_have_no_address(split(trim(x), seq![',']));
        }
    }
}

pub open spec fn opt_chars(o: Option<Vec<char>>) -> Option<Seq<char>> {
    match o {
        Some(v) => Some(v@),
        None => None,
    }
}

pub(crate) fn trimmed_text(text: Option<String>) -> (r: Option<Vec<char>>)
    ensures
        opt_chars(r) == trimmed_header(
            match text {
                Some(t) => Some(t@),
                None => None,
            },
        ),
{
    match text {
        None => None,
        Some(t) => {
            let v = trim_chars(chars_of(t.as_str()).as_slice());
            if v.len() > 0 {
                Some(v)
            } else {
                None
            }
        },
    }
}

fn first_nonempty(pieces: &Vec<Vec<char>>) -> (r: Option<Vec<char>>)
    ensures
        opt_chars(r) == first_nonempty_trimmed(views(pieces@)),
{
    let ghost ps = views(pieces@);
    let mut i: usize = 0;
    assert(ps.skip(0) =~= ps);
    while i < pieces.len()
        invariant
            i <= pieces@.len(),
            ps == views(pieces@),
            first_nonempty_trimmed(ps) == first_nonempty_trimmed(ps.skip(i as int)),
        decreases pieces@.len() - i,
    {
        assert(ps.skip(i as int).drop_first() =~= ps.skip(i + 1));
        assert(ps.skip(i as int)[0] == pieces@[i as int]@);
        let t = trim_chars(pieces[i].as_slice());
        if t.len() > 0 {
            return Some(t);
        }
        i += 1;
    }
    None
}

fn forwarded_part(part: &[char]) -> (r: Option<Vec<char>>)
    ensures
        opt_chars(r) == forwarded_for_part(part@),
{
    proof {
        crate::text::lemma_index_of_bounds(part@, '=');
    }
    match chars_index_of(part, '=') {
        None => None,
        Some(k) => {
            let n = part.len();
            assert(k < n);
            let name = trim_chars(copy_range(part, 0, k).as_slice());
            let raw = trim_chars(copy_range(part, k + 1, n).as_slice());
            let value = trim_matches_chars(raw.as_slice(), '"');
            assert(part@.subrange(0, k as int) =~= part@.take(k as int));
            assert(part@.subrange(k + 1, n as int) =~= part@.skip(k + 1));
            let for_name: Vec<char> = vec!['f', 'o', 'r'];
            if chars_eq_ignore_ascii_case(name.as_slice(), for_name.as_slice()) && value.len() > 0 {
                Some(value)
            } else {
                None
            }
        },
    }
}

fn first_forwarded(parts: &Vec<Vec<char>>) -> (r: Option<Vec<char>>)
    ensures
        opt_chars(r) == first_forwarded_for(views(parts@)),
{
    let ghost ps = views(parts@);
    let mut i: usize = 0;
    assert(ps.skip(0) =~= ps);
    while i < parts.len()
        invariant
            i <= parts@.len(),
            ps == views(parts@),
            first_forwarded_for(ps) == first_forwarded_for(ps.skip(i as int)),
        decreases parts@.len() - i,
    {
        assert(ps.skip(i as int).drop_first() =~= ps.skip(i + 1));
        assert(ps.skip(i as int)[0] == parts@[i as int]@);
        match forwarded_part(parts[i].as_slice()) {
            Some(v) => {
                return Some(v);
            },
            None => {},
        }
        i += 1;
    }
    None
}

/// The client address of a request: the recorded [`ClientIp`], then the
/// `x-forwarded-for`, `x-real-ip` and `forwarded` headers.
pub fn controller_client_ip(request: &NivasaRequest) -> (r: Option<String>)
    ensures
        match r {
            Some(ip) => client_ip_of(request@) == Some(ip@),
            None => client_ip_of(request@) is None,
        },
{
    let recorded = match request.client_ip() {
        Some(ip) => {
            let t = trim_chars(chars_of(ip.as_str()).as_slice());
            if t.len() > 0 {
                Some(t)
            } else {
                None
            }
        },
        None => None,
    };
    if let Some(t) = recorded {
        return Some(string_of(t.as_slice()));
    }
    let xff_text = request.header_text("x-forwarded-for");
    match trimmed_text(xff_text) {
        Some(v) => {
            let comma: Vec<char> = vec![','];
            assert(comma@ == seq![',']);
            let pieces = split_chars(v.as_slice(), comma.as_slice());
            if let Some(ip) = first_nonempty(&pieces) {
                return Some(string_of(ip.as_slice()));
            }
        },
        None => {},
    }
    let real_text = request.header_text("x-real-ip");
    if let Some(ip) = trimmed_text(real_text) {
        return Some(string_of(ip.as_slice()));
    }
    let fwd_text = request.header_text("forwarded");
    match trimmed_text(fwd_text) {
        Some(v) => {
            let semi: Vec<char> = vec![';'];
            assert(semi@ == seq![';']);
            let parts = split_chars(v.as_slice(), semi.as_slice());
            match first_forwarded(&parts) {
                Some(ip) => Some(string_of(ip.as_slice())),
                None => None,
            }
        },
        None => None,
    }
}

} // verus!
