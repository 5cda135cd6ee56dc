//! HTTP header names, values and the header map carried by requests and
//! responses.
//!
//! A header map holds canonical (lower-case) names, each once, with the raw
//! value bytes. Names are validated and lower-cased by `http::HeaderName`;
//! value validity and `to_str` are the byte rules of `http::HeaderValue`.
use vstd::prelude::*;
use vstd::string::*;
use crate::text::{chars_of, string_push};

verus! {

/// A byte that `http::HeaderName` accepts in a name: an ASCII letter or
/// digit, or one of ``!#$%&'*+-.^_`|~``.
pub open spec fn is_name_byte(b: u8) -> bool {
    ||| (97 <= b && b <= 122)
    ||| (65 <= b && b <= 90)
    ||| (48 <= b && b <= 57)
    ||| b == 33 || b == 35 || b == 36 || b == 37 || b == 38 || b == 39
    ||| b == 42 || b == 43 || b == 45 || b == 46 || b == 94 || b == 95
    ||| b == 96 || b == 124 || b == 126
}

/// A name byte with ASCII upper case (65 to 90) folded to lower case.
pub open spec fn lower_name_byte(b: u8) -> u8 {
    if 65 <= b && b <= 90 {
        (b + 32) as u8
    } else {
        b
    }
}

/// The canonical form that `http::HeaderName::from_bytes` gives a header
/// name: for one to 65535 name bytes, the name lower-cased; `None` for any
/// other input.
pub open spec fn canonical_header_name(name: Seq<u8>) -> Option<Seq<char>> {
    if 1 <= name.len() <= 65535 && forall|i: int| 0 <= i < name.len() ==> #[trigger] is_name_byte(name[i]) {
        Some(Seq::new(name.len(), |i: int| lower_name_byte(name[i]) as char))
    } else {
        None
    }
}

/// `http::HeaderName::from_bytes`, the name read back with `as_str`.
#[verifier::external_body]
fn header_name_of(name: &[u8]) -> (r: Option<String>)
    ensures
        match r {
            Some(s) => canonical_header_name(name@) == Some(s@),
            None => canonical_header_name(name@) is None,
        },
{
    http::header::HeaderName::from_bytes(name).ok().map(|n| n.as_str().to_owned())
}

/// The canonical name of `name`, as the http crate validates it.
pub fn canonical_name(name: &str) -> (r: Option<String>)
    ensures
        match r {
            Some(s) => canonical_header_name(name.spec_bytes()) == Some(s@),
            None => canonical_header_name(name.spec_bytes()) is None,
        },
{
    let bytes = name.as_bytes();
    header_name_of(bytes)
}

/// A byte that `http::HeaderValue` accepts in a value.
pub open spec fn is_value_byte(b: u8) -> bool {
    (b >= 32 && b != 127) || b == 9
}

/// A byte that `HeaderValue::to_str` accepts: visible ASCII or tab.
pub open spec fn is_visible_ascii(b: u8) -> bool {
    (b >= 32 && b < 127) || b == 9
}

pub open spec fn valid_value(bytes: Seq<u8>) -> bool {
    forall|i: int| 0 <= i < bytes.len() ==> is_value_byte(bytes[i])
}

/// The text of a header value, when every byte is visible ASCII.
pub open spec fn value_text(bytes: Seq<u8>) -> Option<Seq<char>> {
    if forall|i: int| 0 <= i < bytes.len() ==> is_visible_ascii(bytes[i]) {
        Some(Seq::new(bytes.len(), |i: int| bytes[i] as char))
    } else {
        None
    }
}

/// A header value: raw bytes that may or may not be text.
#[derive(Debug, Clone, PartialEq, Eq)]
pub struct HeaderValue {
    bytes: Vec<u8>,
}

impl View for HeaderValue {
    type V = Seq<u8>;

    closed spec fn view(&self) -> Seq<u8> {
        self.bytes@
    }
}

impl HeaderValue {
    /// A value holding `bytes`, when each byte is one a header value may hold.
    pub fn from_bytes(bytes: &[u8]) -> (r: Option<HeaderValue>)
        ensures
            match r {
                Some(v) => valid_value(bytes@) && v@ == bytes@,
                None => !valid_value(bytes@),
            },
    {
        let mut i: usize = 0;
        while i < bytes.len()
            invariant
                i <= bytes@.len(),
                forall|j: int| 0 <= j < i ==> is_value_byte(bytes@[j]),
            decreases bytes@.len() - i,
        {
            let b = bytes[i];
            if !((b >= 32 && b != 127) || b == 9) {
                return None;
            }
            i += 1;
        }
        let mut v: Vec<u8> = Vec::new();
        let mut k: usize = 0;
        while k < bytes.len()
            invariant
                k <= bytes@.len(),
                v@ == bytes@.take(k as int),
            decreases bytes@.len() - k,
        {
            v.push(bytes[k]);
            k += 1;
            assert(v@ =~= bytes@.take(k as int));
        }
        assert(bytes@.take(bytes@.len() as int) =~= bytes@);
        Some(HeaderValue { bytes: v })
    }

    /// A value holding the UTF-8 bytes of `text`, when they are valid value bytes.
    pub fn from_str(text: &str) -> (r: Option<HeaderValue>)
        ensures
            match r {
                Some(v) => valid_value(text.spec_bytes()) && v@ == text.spec_bytes(),
                None => !valid_value(text.spec_bytes()),
            },
    {
        let b = text.as_bytes();
        HeaderValue::from_bytes(b)
    }

    /// A value holding the UTF-8 bytes of a fixed text of the library (such
    /// as a content type), which is not checked.
    pub(crate) fn from_static(text: &str) -> (r: HeaderValue)
        ensures
            r@ == text.spec_bytes(),
    {
        let b = text.as_bytes();
        let mut v: Vec<u8> = Vec::new();
        let mut k: usize = 0;
        while k < b.len()
            invariant
                k <= b@.len(),
                v@ == b@.take(k as int),
            decreases b@.len() - k,
        {
            v.push(b[k]);
            k += 1;
            assert(v@ =~= b@.take(k as int));
        }
        assert(b@.take(b@.len() as int) =~= b@);
        HeaderValue { bytes: v }
    }

    /// An owned copy of the value.
    pub(crate) fn copy(&self) -> (r: HeaderValue)
        ensures
            r@ == self@,
    {
        HeaderValue { bytes: crate::text::copy_all(self.bytes.as_slice()) }
    }

    /// The raw bytes of the value.
    pub fn as_bytes(&self) -> (r: &[u8])
        ensures
            r@ == self@,
    {
        self.bytes.as_slice()
    }

    /// The value as text, when it is visible ASCII (`HeaderValue::to_str`).
    pub fn to_str(&self) -> (r: Option<String>)
        ensures
            match r {
                Some(s) => value_text(self@) == Some(s@),
                None => value_text(self@) is None,
            },
    {
        let mut out = String::new();
        let mut i: usize = 0;
        while i < self.bytes.len()
            invariant
                i <= self.bytes@.len(),
                forall|j: int| 0 <= j < i ==> is_visible_ascii(self.bytes@[j]),
                out@ == Seq::new(i as nat, |j: int| self.bytes@[j] as char),
            decreases self.bytes@.len() - i,
        {
            let b = self.bytes[i];
            if !((b >= 32 && b < 127) || b == 9) {
                return None;
            }
            string_push(&mut out, b as char);
            i += 1;
            assert(out@ =~= Seq::new(i as nat, |j: int| self.bytes@[j] as char));
        }
        Some(out)
    }
}

/// The value recorded for the canonical `name` (its first entry).
pub open spec fn lookup_header(entries: Seq<(Seq<char>, Seq<u8>)>, name: Seq<char>) -> Option<Seq<u8>>
    decreases entries.len(),
{
    if entries.len() == 0 {
        None
    } else if entries[0].0 == name {
        Some(entries[0].1)
    } else {
        lookup_header(entries.drop_first(), name)
    }
}

/// Header map of canonical names to values.
#[derive(Debug, Clone, PartialEq, Eq)]
pub struct HeaderMap {
    entries: Vec<(String, HeaderValue)>,
}

pub open spec fn header_entries_view(v: Seq<(String, HeaderValue)>) -> Seq<(Seq<char>, Seq<u8>)> {
    v.map_values(|e: (String, HeaderValue)| (e.0@, e.1@))
}

impl View for HeaderMap {
    type V = Seq<(Seq<char>, Seq<u8>)>;

    closed spec fn view(&self) -> Seq<(Seq<char>, Seq<u8>)> {
        header_entries_view(self.entries@)
    }
}

impl HeaderMap {
    /// The value of the canonical name `name`.
    pub open spec fn lookup(self, name: Seq<char>) -> Option<Seq<u8>> {
        lookup_header(self@, name)
    }

    /// The value that `get(name)` finds for a name as written by a caller.
    pub open spec fn get_spec(self, name: Seq<u8>) -> Option<Seq<u8>> {
        match canonical_header_name(name) {
            Some(n) => self.lookup(n),
            None => None,
        }
    }

    /// The text of the header `name`, when present and visible ASCII.
    pub open spec fn text_spec(self, name: Seq<u8>) -> Option<Seq<char>> {
        match self.get_spec(name) {
            Some(v) => value_text(v),
            None => None,
        }
    }

    /// An owned copy of the map.
    pub(crate) fn duplicate(&self) -> (r: HeaderMap)
        ensures
            r@ == self@,
    {
        let mut out: Vec<(String, HeaderValue)> = Vec::new();
        let mut i: usize = 0;
        while i < self.entries.len()
            invariant
                i <= self.entries@.len(),
                out@.len() == i,
                forall|j: int| 0 <= j < i ==> (#[trigger] out@[j]).0@ == self.entries@[j].0@ && out@[j].1@ == self.entries@[j].1@,
            decreases self.entries@.len() - i,
        {
            let e = &self.entries[i];
            out.push((e.0.clone(), e.1.copy()));
            i += 1;
        }
        assert(header_entries_view(out@) =~= header_entries_view(self.entries@));
        HeaderMap { entries: out }
    }

    /// An empty map.
    pub fn new() -> (r: HeaderMap)
        ensures
            r@.len() == 0,
    {
        HeaderMap { entries: Vec::new() }
    }

    /// Number of header names present.
    pub fn len(&self) -> (r: usize)
        ensures
            r == self@.len(),
    {
        self.entries.len()
    }

    pub fn is_empty(&self) -> (r: bool)
        ensures
            r == (self@.len() == 0),
    {
        self.entries.len() == 0
    }

    /// The value stored under the canonical name `name`.
    pub fn get_canonical(&self, name: &String) -> (r: Option<&HeaderValue>)
        ensures
            match r {
                Some(v) => self.lookup(name@) == Some(v@),
                None => self.lookup(name@) is None,
            },
    {
        let mut i: usize = 0;
        assert(self@.skip(0) =~= self@);
        while i < self.entries.len()
            invariant
                i <= self.entries@.len(),
                self.lookup(name@) == lookup_header(self@.skip(i as int), name@),
                self@ == header_entries_view(self.entries@),
            decreases self.entries@.len() - i,
        {
            assert(self@.skip(i as int).drop_first() =~= self@.skip(i + 1));
            if self.entries[i].0 == *name {
                return Some(&self.entries[i].1);
            }
            i += 1;
        }
        None
    }

    /// The text of the header stored under the canonical name `name`, when
    /// present and visible ASCII.
    pub fn text_of(&self, name: &str) -> (r: Option<String>)
        ensures
            match r {
                Some(s) => self.lookup(name@) matches Some(v) && value_text(v) == Some(s@),
                None => self.lookup(name@) is None || value_text(self.lookup(name@)->0) is None,
            },
    {
        let key = name.to_owned();
        match self.get_canonical(&key) {
            None => None,
            Some(v) => v.to_str(),
        }
    }

    /// The value of the header `name` (names are matched case-insensitively,
    /// as the http crate folds them).
    pub fn get(&self, name: &str) -> (r: Option<&HeaderValue>)
        ensures
            match r {
                Some(v) => self.get_spec(name.spec_bytes()) == Some(v@),
                None => self.get_spec(name.spec_bytes()) is None,
            },
    {
        match canonical_name(name) {
            None => None,
            Some(n) => self.get_canonical(&n),
        }
    }

    /// The text of the header `name`, when present and visible ASCII.
    pub fn get_str(&self, name: &str) -> (r: Option<String>)
        ensures
            match r {
                Some(s) => self.text_spec(name.spec_bytes()) == Some(s@),
                None => self.text_spec(name.spec_bytes()) is None,
            },
    {
        match self.get(name) {
            None => None,
            Some(v) => v.to_str(),
        }
    }

    /// Whether the header `name` is present.
    pub fn contains_key(&self, name: &str) -> (r: bool)
        ensures
            r == self.get_spec(name.spec_bytes()) is Some,
    {
        self.get(name).is_some()
    }

    /// Store `value` under the canonical name `name`, replacing an earlier value.
    pub fn insert_canonical(&mut self, name: String, value: HeaderValue)
        ensures
            forall|k: Seq<char>|
                #[trigger] final(self).lookup(k) == if k == name@ {
                    Some(value@)
                } else {
                    old(self).lookup(k)
                },
    {
        let ghost old_view = self@;
        let mut i: usize = 0;
        while i < self.entries.len()
            invariant
                i <= self.entries@.len(),
                self@ == old_view,
                old_view == old(self)@,
                forall|j: int| 0 <= j < i ==> self.entries@[j].0@ != name@,
            decreases self.entries@.len() - i,
        {
            if self.entries[i].0 == name {
                let ghost vname = name@;
                let ghost vvalue = value@;
                self.entries.set(i, (name, value));
                proof {
                    assert(self@ =~= old_view.update(i as int, (vname, vvalue)));
                    lemma_header_replace(old_view, self@, i as int, vname, vvalue);
                }
                return;
            }
            i += 1;
        }
        let ghost vname = name@;
        let ghost vvalue = value@;
        self.entries.push((name, value));
        proof {
            assert(self@ =~= old_view.push((vname, vvalue)));
            lemma_header_append(old_view, self@, vname, vvalue);
        }
    }

    /// Remove the header stored under the canonical name `name`.
    pub fn remove_canonical(&mut self, name: &str)
        ensures
            forall|k: Seq<char>|
                #[trigger] final(self).lookup(k) == if k == name@ {
                    None
                } else {
                    old(self).lookup(k)
                },
    {
        let ghost before = self@;
        let mut kept: Vec<(String, HeaderValue)> = Vec::new();
        let mut i: usize = 0;
        let key = name.to_owned();
        while i < self.entries.len()
            invariant
                i <= self.entries@.len(),
                self@ == before,
                key@ == name@,
                forall|k: Seq<char>|
                    #[trigger] lookup_header(header_entries_view(kept@), k) == if k == name@ {
                        None
                    } else {
                        lookup_header(before.take(i as int), k)
                    },
            decreases self.entries@.len() - i,
        {
            let ghost kv = header_entries_view(kept@);
            let e = &self.entries[i];
            assert(before[i as int] == (e.0@, e.1@));
            if e.0 != key {
                kept.push((e.0.clone(), e.1.copy()));
                assert(header_entries_view(kept@) =~= kv.push((e.0@, e.1@)));
                proof {
                    lemma_lookup_push(kv, (e.0@, e.1@));
                }
            }
            proof {
                lemma_lookup_push(before.take(i as int), (e.0@, e.1@));
                assert(before.take(i + 1) =~= before.take(i as int).push((e.0@, e.1@)));
            }
            i += 1;
        }
        assert(before.take(before.len() as int) =~= before);
        self.entries = kept;
    }

    /// Add or replace the header `name`; nothing changes when the name or the
    /// value is not valid. Returns whether the header was stored.
    pub fn insert(&mut self, name: &str, value: &str) -> (r: bool)
        ensures
            r == (canonical_header_name(name.spec_bytes()) is Some && valid_value(value.spec_bytes())),
            r ==> forall|k: Seq<char>|
                #[trigger] final(self).lookup(k) == if Some(k) == canonical_header_name(
                    name.spec_bytes(),
                ) {
                    Some(value.spec_bytes())
                } else {
                    old(self).lookup(k)
                },
            !r ==> final(self)@ == old(self)@,
    {
        let n = match canonical_name(name) {
            None => {
                return false;
            },
            Some(n) => n,
        };
        let v = match HeaderValue::from_str(value) {
            None => {
                return false;
            },
            Some(v) => v,
        };
        self.insert_canonical(n, v);
        true
    }

    /// The (canonical name, value) entries, in insertion order.
    pub fn entries(&self) -> (r: &[(String, HeaderValue)])
        ensures
            header_entries_view(r@) == self@,
    {
        self.entries.as_slice()
    }
}

/// Two header names that differ only in the letter case of their bytes
/// have the same canonical form: both are valid or both are not, and a
/// valid pair lower-cases to the same name.
pub proof fn lemma_names_ignore_case(a: Seq<u8>, b: Seq<u8>)
    requires
        a.len() == b.len(),
        forall|i: int| 0 <= i < a.len() ==> lower_name_byte(a[i]) == lower_name_byte(b[i]),
    ensures
        canonical_header_name(a) == canonical_header_name(b),
{
    assert forall|i: int| 0 <= i < a.len() implies (is_name_byte(a[i]) <==> is_name_byte(b[i])) by {
        assert(lower_name_byte(a[i]) == lower_name_byte(b[i]));
    }
    if canonical_header_name(a) is Some {
        assert forall|i: int| 0 <= i < b.len() implies #[trigger] is_name_byte(b[i]) by {
            assert(is_name_byte(a[i]));
        }
        assert(Seq::new(a.len(), |i: int| lower_name_byte(a[i]) as char) =~= Seq::new(
            b.len(),
            |i: int| lower_name_byte(b[i]) as char,
        ));
    } else if canonical_header_name(b) is Some {
        assert forall|i: int| 0 <= i < a.len() implies #[trigger] is_name_byte(a[i]) by {
            assert(is_name_byte(b[i]));
        }
    }
}

/// A header stored with `HeaderMap::insert` reads back through `get` under
/// its name written in any letter case.
pub proof fn lemma_inserted_header_reads_back(
    before: HeaderMap,
    after: HeaderMap,
    name: Seq<u8>,
    value: Seq<u8>,
    read_name: Seq<u8>,
)
    requires
        canonical_header_name(name) is Some,
        forall|k: Seq<char>|
            #[trigger] after.lookup(k) == if Some(k) == canonical_header_name(name) {
                Some(value)
            } else {
                before.lookup(k)
            },
        read_name.len() == name.len(),
        forall|i: int| 0 <= i < name.len() ==> lower_name_byte(read_name[i]) == lower_name_byte(name[i]),
    ensures
        after.get_spec(read_name) == Some(value),
{
    lemma_names_ignore_case(read_name, name);
    let n = canonical_header_name(name).unwrap();
    assert(after.lookup(n) == Some(value));
}

proof fn lemma_header_replace(
    before: Seq<(Seq<char>, Seq<u8>)>,
    after: Seq<(Seq<char>, Seq<u8>)>,
    i: int,
    name: Seq<char>,
    value: Seq<u8>,
)
    requires
        0 <= i < before.len(),
        before[i].0 == name,
        after == before.update(i, (name, value)),
        forall|j: int| 0 <= j < i ==> before[j].0 != name,
    ensures
        forall|k: Seq<char>|
            #[trigger] lookup_header(after, k) == if k == name {
                Some(value)
            } else {
                lookup_header(before, k)
            },
    decreases i,
{
    assert forall|k: Seq<char>|
        #[trigger] lookup_header(after, k) == if k == name {
            Some(value)
        } else {
            lookup_header(before, k)
        } by {
        if i > 0 {
            assert(after.drop_first() =~= before.drop_first().update(i - 1, (name, value)));
            lemma_header_replace(before.drop_first(), after.drop_first(), i - 1, name, value);
            assert(lookup_header(after.drop_first(), k) == if k == name {
                Some(value)
            } else {
                lookup_header(before.drop_first(), k)
            });
        } else {
            assert(after.drop_first() =~= before.drop_first());
        }
    }
}

proof fn lemma_header_append(
    before: Seq<(Seq<char>, Seq<u8>)>,
    after: Seq<(Seq<char>, Seq<u8>)>,
    name: Seq<char>,
    value: Seq<u8>,
)
    requires
        after == before.push((name, value)),
        forall|j: int| 0 <= j < before.len() ==> before[j].0 != name,
    ensures
        forall|k: Seq<char>|
            #[trigger] lookup_header(after, k) == if k == name {
                Some(value)
            } else {
                lookup_header(before, k)
            },
    decreases before.len(),
{
    assert forall|k: Seq<char>|
        #[trigger] lookup_header(after, k) == if k == name {
            Some(value)
        } else {
            lookup_header(before, k)
        } by {
        if before.len() > 0 {
            assert(after.drop_first() =~= before.drop_first().push((name, value)));
            lemma_header_append(before.drop_first(), after.drop_first(), name, value);
            assert(lookup_header(after.drop_first(), k) == if k == name {
                Some(value)
            } else {
                lookup_header(before.drop_first(), k)
            });
        } else {
            assert(after.drop_first() =~= Seq::<(Seq<char>, Seq<u8>)>::empty());
        }
    }
}


proof fn lemma_lookup_push(es: Seq<(Seq<char>, Seq<u8>)>, e: (Seq<char>, Seq<u8>))
    ensures
        forall|k: Seq<char>|
            #[trigger] lookup_header(es.push(e), k) == match lookup_header(es, k) {
                Some(v) => Some(v),
                None => if e.0 == k {
                    Some(e.1)
                } else {
                    None
                },
            },
    decreases es.len(),
{
    assert forall|k: Seq<char>|
        #[trigger] lookup_header(es.push(e), k) == match lookup_header(es, k) {
            Some(v) => Some(v),
            None => if e.0 == k {
                Some(e.1)
            } else {
                None
            },
        } by {
        if es.len() > 0 {
            assert(es.push(e).drop_first() =~= es.drop_first().push(e));
            assert(es.push(e)[0] == es[0]);
            lemma_lookup_push(es.drop_first(), e);
            assert(lookup_header(es.drop_first().push(e), k) == match lookup_header(es.drop_first(), k) {
                Some(v) => Some(v),
                None => if e.0 == k {
                    Some(e.1)
                } else {
                    None
                },
            });
        } else {
            assert(es.push(e).drop_first() =~= Seq::<(Seq<char>, Seq<u8>)>::empty());
        }
    }
}

} // verus!
