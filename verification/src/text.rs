//! Character-level helpers shared by the header, multipart and SSE code.
//!
//! Strings are processed as `Vec<char>`, whose view is the same `Seq<char>`
//! that vstd gives `String` and `str`.
use vstd::prelude::*;
use vstd::string::*;

verus! {

/// Code points with the Unicode `White_Space` property, the set that
/// `char::is_whitespace` (and so `str::trim`) removes.
pub open spec fn is_ws(c: char) -> bool {
    let u = c as u32;
    ||| 0x9 <= u <= 0xd
    ||| u == 0x20
    ||| u == 0x85
    ||| u == 0xa0
    ||| u == 0x1680
    ||| 0x2000 <= u <= 0x200a
    ||| u == 0x2028
    ||| u == 0x2029
    ||| u == 0x202f
    ||| u == 0x205f
    ||| u == 0x3000
}

pub fn is_whitespace(c: char) -> (r: bool)
    ensures
        r == is_ws(c),
{
    let u = c as u32;
    (0x9 <= u && u <= 0xd) || u == 0x20 || u == 0x85 || u == 0xa0 || u == 0x1680 || (0x2000 <= u
        && u <= 0x200a) || u == 0x2028 || u == 0x2029 || u == 0x202f || u == 0x205f || u == 0x3000
}

pub open spec fn trim_start(s: Seq<char>) -> Seq<char>
    decreases s.len(),
{
    if s.len() > 0 && is_ws(s[0]) {
        trim_start(s.drop_first())
    } else {
        s
    }
}

pub open spec fn trim_end(s: Seq<char>) -> Seq<char>
    decreases s.len(),
{
    if s.len() > 0 && is_ws(s.last()) {
        trim_end(s.drop_last())
    } else {
        s
    }
}

/// `str::trim`: leading and trailing whitespace removed.
pub open spec fn trim(s: Seq<char>) -> Seq<char> {
    trim_end(trim_start(s))
}

/// Leading and trailing occurrences of `c` removed (`str::trim_matches` with a char).
pub open spec fn trim_matches_start(s: Seq<char>, c: char) -> Seq<char>
    decreases s.len(),
{
    if s.len() > 0 && s[0] == c {
        trim_matches_start(s.drop_first(), c)
    } else {
        s
    }
}

pub open spec fn trim_matches_end(s: Seq<char>, c: char) -> Seq<char>
    decreases s.len(),
{
    if s.len() > 0 && s.last() == c {
        trim_matches_end(s.drop_last(), c)
    } else {
        s
    }
}

pub open spec fn trim_matches(s: Seq<char>, c: char) -> Seq<char> {
    trim_matches_end(trim_matches_start(s, c), c)
}

pub open spec fn starts_with<T>(s: Seq<T>, p: Seq<T>) -> bool {
    p.len() <= s.len() && s.take(p.len() as int) == p
}

pub open spec fn ends_with<T>(s: Seq<T>, p: Seq<T>) -> bool {
    p.len() <= s.len() && s.skip(s.len() - p.len()) == p
}

/// `strip_prefix` that keeps the input when the prefix is absent.
pub open spec fn drop_prefix<T>(s: Seq<T>, p: Seq<T>) -> Seq<T> {
    if starts_with(s, p) {
        s.skip(p.len() as int)
    } else {
        s
    }
}

/// `strip_suffix` that keeps the input when the suffix is absent.
pub open spec fn drop_suffix<T>(s: Seq<T>, p: Seq<T>) -> Seq<T> {
    if ends_with(s, p) {
        s.take(s.len() - p.len())
    } else {
        s
    }
}

/// `needle` occurs in `hay` starting at index `i`.
pub open spec fn occurs_at<T>(hay: Seq<T>, needle: Seq<T>, i: int) -> bool {
    0 <= i && i + needle.len() <= hay.len() && hay.subrange(i, i + needle.len()) == needle
}

pub open spec fn is_first_occurrence<T>(hay: Seq<T>, needle: Seq<T>, i: int) -> bool {
    occurs_at(hay, needle, i) && forall|j: int| 0 <= j < i ==> !occurs_at(hay, needle, j)
}

/// Index of the leftmost occurrence of `needle` in `hay`.
pub open spec fn find_first<T>(hay: Seq<T>, needle: Seq<T>) -> Option<int> {
    if exists|i: int| is_first_occurrence(hay, needle, i) {
        Some(choose|i: int| is_first_occurrence(hay, needle, i))
    } else {
        None
    }
}

pub proof fn lemma_first_occurrence_unique<T>(hay: Seq<T>, needle: Seq<T>, i: int, k: int)
    requires
        is_first_occurrence(hay, needle, i),
        is_first_occurrence(hay, needle, k),
    ensures
        i == k,
{
}

pub proof fn lemma_find_first_some<T>(hay: Seq<T>, needle: Seq<T>, i: int)
    requires
        is_first_occurrence(hay, needle, i),
    ensures
        find_first(hay, needle) == Some(i),
{
    let k = choose|k: int| is_first_occurrence(hay, needle, k);
    lemma_first_occurrence_unique(hay, needle, i, k);
}

pub proof fn lemma_find_first_bounds<T>(hay: Seq<T>, needle: Seq<T>)
    ensures
        find_first(hay, needle) matches Some(i) ==> is_first_occurrence(hay, needle, i),
{
}

/// Pieces of `s` between occurrences of `sep` (`str::split` with a non-empty pattern),
/// `cur` being the piece read so far.
pub open spec fn split_acc<T>(cur: Seq<T>, rest: Seq<T>, sep: Seq<T>) -> Seq<Seq<T>>
    decreases rest.len(),
{
    if rest.len() == 0 {
        seq![cur]
    } else if sep.len() > 0 && starts_with(rest, sep) {
        seq![cur] + split_acc(Seq::empty(), rest.skip(sep.len() as int), sep)
    } else {
        split_acc(cur.push(rest[0]), rest.drop_first(), sep)
    }
}

pub open spec fn split<T>(s: Seq<T>, sep: Seq<T>) -> Seq<Seq<T>> {
    split_acc(Seq::empty(), s, sep)
}

/// A split has at least one piece.
pub proof fn lemma_split_acc_nonempty<T>(cur: Seq<T>, rest: Seq<T>, sep: Seq<T>)
    ensures
        split_acc(cur, rest, sep).len() >= 1,
    decreases rest.len(),
{
    if rest.len() == 0 {
    } else if sep.len() > 0 && starts_with(rest, sep) {
        lemma_split_acc_nonempty(Seq::empty(), rest.skip(sep.len() as int), sep);
    } else {
        lemma_split_acc_nonempty(cur.push(rest[0]), rest.drop_first(), sep);
    }
}

pub proof fn lemma_split_nonempty<T>(s: Seq<T>, sep: Seq<T>)
    ensures
        split(s, sep).len() >= 1,
{
    lemma_split_acc_nonempty(Seq::empty(), s, sep);
}

/// Index of the first `c` in `s`.
pub open spec fn index_of(s: Seq<char>, c: char) -> Option<int>
    decreases s.len(),
{
    if s.len() == 0 {
        None
    } else if s[0] == c {
        Some(0)
    } else {
        match index_of(s.drop_first(), c) {
            Some(i) => Some(i + 1),
            None => None,
        }
    }
}

pub proof fn lemma_index_of_bounds(s: Seq<char>, c: char)
    ensures
        index_of(s, c) matches Some(i) ==> 0 <= i < s.len() && s[i] == c && forall|j: int|
            0 <= j < i ==> s[j] != c,
        index_of(s, c) is None ==> forall|j: int| 0 <= j < s.len() ==> s[j] != c,
    decreases s.len(),
{
    if s.len() > 0 && s[0] != c {
        lemma_index_of_bounds(s.drop_first(), c);
        if let Some(i) = index_of(s, c) {
            assert forall|j: int| 0 <= j < i implies s[j] != c by {
                if j > 0 {
                    assert(s[j] == s.drop_first()[j - 1]);
                }
            }
        }
        if index_of(s, c) is None {
            assert forall|j: int| 0 <= j < s.len() implies s[j] != c by {
                if j > 0 {
                    assert(s[j] == s.drop_first()[j - 1]);
                }
            }
        }
    }
}

/// ASCII letters folded to lower case, everything else unchanged.
pub open spec fn ascii_lower(c: char) -> char {
    if 'A' <= c <= 'Z' {
        ((c as u32) + 32) as char
    } else {
        c
    }
}

/// `str::eq_ignore_ascii_case`.
pub open spec fn eq_ignore_ascii_case(a: Seq<char>, b: Seq<char>) -> bool {
    a.len() == b.len() && forall|i: int| 0 <= i < a.len() ==> ascii_lower(a[i]) == ascii_lower(b[i])
}

pub open spec fn lower_all(s: Seq<char>) -> Seq<char> {
    Seq::new(s.len(), |i: int| ascii_lower(s[i]))
}

pub fn to_ascii_lower(c: char) -> (r: char)
    ensures
        r == ascii_lower(c),
{
    if 'A' <= c && c <= 'Z' {
        let u = (c as u32) + 32;
        // 'a'..='z' are ASCII, so `u` fits a byte
        let b = u as u8;
        assert(b as u32 == u);
        b as char
    } else {
        c
    }
}

pub fn chars_eq_ignore_ascii_case(a: &[char], b: &[char]) -> (r: bool)
    ensures
        r == eq_ignore_ascii_case(a@, b@),
{
    if a.len() != b.len() {
        return false;
    }
    let mut i: usize = 0;
    while i < a.len()
        invariant
            a@.len() == b@.len(),
            i <= a@.len(),
            forall|j: int| 0 <= j < i ==> ascii_lower(a@[j]) == ascii_lower(b@[j]),
        decreases a@.len() - i,
    {
        if to_ascii_lower(a[i]) != to_ascii_lower(b[i]) {
            return false;
        }
        i += 1;
    }
    true
}

pub fn chars_lower(a: &[char]) -> (r: Vec<char>)
    ensures
        r@ == lower_all(a@),
{
    let mut r: Vec<char> = Vec::new();
    let mut i: usize = 0;
    while i < a.len()
        invariant
            i <= a@.len(),
            r@ == lower_all(a@.take(i as int)),
        decreases a@.len() - i,
    {
        r.push(to_ascii_lower(a[i]));
        i += 1;
        assert(r@ =~= lower_all(a@.take(i as int)));
    }
    assert(a@.take(a@.len() as int) =~= a@);
    r
}

pub fn chars_eq(a: &[char], b: &[char]) -> (r: bool)
    ensures
        r == (a@ == b@),
{
    if a.len() != b.len() {
        return false;
    }
    let mut i: usize = 0;
    while i < a.len()
        invariant
            a@.len() == b@.len(),
            i <= a@.len(),
            forall|j: int| 0 <= j < i ==> a@[j] == b@[j],
        decreases a@.len() - i,
    {
        if a[i] != b[i] {
            return false;
        }
        i += 1;
    }
    assert(a@ =~= b@);
    true
}

pub fn copy_range<T: Copy>(s: &[T], from: usize, to: usize) -> (r: Vec<T>)
    requires
        from <= to <= s@.len(),
    ensures
        r@ == s@.subrange(from as int, to as int),
{
    let mut r: Vec<T> = Vec::new();
    let mut i = from;
    while i < to
        invariant
            from <= i <= to <= s@.len(),
            r@ == s@.subrange(from as int, i as int),
        decreases to - i,
    {
        r.push(s[i]);
        i += 1;
        assert(r@ =~= s@.subrange(from as int, i as int));
    }
    r
}

pub fn copy_all<T: Copy>(s: &[T]) -> (r: Vec<T>)
    ensures
        r@ == s@,
{
    let r = copy_range(s, 0, s.len());
    assert(s@.subrange(0, s@.len() as int) =~= s@);
    r
}

/// The characters of `s`, in order.
pub fn chars_of(s: &str) -> (r: Vec<char>)
    ensures
        r@ == s@,
{
    let n = s.unicode_len();
    let mut r: Vec<char> = Vec::new();
    let mut i: usize = 0;
    while i < n
        invariant
            n == s@.len(),
            i <= n,
            r@ == s@.take(i as int),
        decreases n - i,
    {
        r.push(s.get_char(i));
        i += 1;
        assert(r@ =~= s@.take(i as int));
    }
    assert(s@.take(n as int) =~= s@);
    r
}

/// `String::push` from std.
#[verifier::external_body]
pub(crate) fn string_push(s: &mut String, c: char)
    ensures
        final(s)@ == old(s)@.push(c),
{
    s.push(c);
}

/// A `String` holding exactly the given characters.
pub fn string_of(v: &[char]) -> (r: String)
    ensures
        r@ == v@,
{
    let mut r = String::new();
    let mut i: usize = 0;
    while i < v.len()
        invariant
            i <= v@.len(),
            r@ == v@.take(i as int),
        decreases v@.len() - i,
    {
        string_push(&mut r, v[i]);
        i += 1;
        assert(r@ =~= v@.take(i as int));
    }
    assert(v@.take(v@.len() as int) =~= v@);
    r
}

pub fn trim_chars(s: &[char]) -> (r: Vec<char>)
    ensures
        r@ == trim(s@),
{
    let mut start: usize = 0;
    assert(s@.skip(0) =~= s@);
    while start < s.len() && is_whitespace(s[start])
        invariant
            start <= s@.len(),
            trim_start(s@) == trim_start(s@.skip(start as int)),
        decreases s@.len() - start,
    {
        assert(s@.skip(start as int).drop_first() =~= s@.skip(start + 1));
        start += 1;
    }
    assert(trim_start(s@) == s@.skip(start as int));
    let mut end: usize = s.len();
    while end > start && is_whitespace(s[end - 1])
        invariant
            start <= end <= s@.len(),
            trim_start(s@) == s@.skip(start as int),
            trim_end(s@.skip(start as int)) == trim_end(s@.subrange(start as int, end as int)),
        decreases end,
    {
        assert(s@.subrange(start as int, end as int).drop_last() =~= s@.subrange(
            start as int,
            end - 1,
        ));
        end -= 1;
    }
    assert(s@.skip(start as int) =~= s@.subrange(start as int, s@.len() as int));
    copy_range(s, start, end)
}

pub fn trim_matches_chars(s: &[char], c: char) -> (r: Vec<char>)
    ensures
        r@ == trim_matches(s@, c),
{
    let mut start: usize = 0;
    assert(s@.skip(0) =~= s@);
    while start < s.len() && s[start] == c
        invariant
            start <= s@.len(),
            trim_matches_start(s@, c) == trim_matches_start(s@.skip(start as int), c),
        decreases s@.len() - start,
    {
        assert(s@.skip(start as int).drop_first() =~= s@.skip(start + 1));
        start += 1;
    }
    let mut end: usize = s.len();
    while end > start && s[end - 1] == c
        invariant
            start <= end <= s@.len(),
            trim_matches_start(s@, c) == s@.skip(start as int),
            trim_matches_end(s@.skip(start as int), c) == trim_matches_end(
                s@.subrange(start as int, end as int),
                c,
            ),
        decreases end,
    {
        assert(s@.subrange(start as int, end as int).drop_last() =~= s@.subrange(
            start as int,
            end - 1,
        ));
        end -= 1;
    }
    assert(s@.skip(start as int) =~= s@.subrange(start as int, s@.len() as int));
    copy_range(s, start, end)
}

/// Whether `s` begins with `p`.
pub fn chars_starts_with(s: &[char], p: &[char]) -> (r: bool)
    ensures
        r == starts_with(s@, p@),
{
    if p.len() > s.len() {
        return false;
    }
    let mut i: usize = 0;
    while i < p.len()
        invariant
            p@.len() <= s@.len(),
            i <= p@.len(),
            forall|j: int| 0 <= j < i ==> s@[j] == p@[j],
        decreases p@.len() - i,
    {
        if s[i] != p[i] {
            assert(s@.take(p@.len() as int)[i as int] != p@[i as int]);
            return false;
        }
        i += 1;
    }
    assert(s@.take(p@.len() as int) =~= p@);
    true
}

pub open spec fn views(v: Seq<Vec<char>>) -> Seq<Seq<char>> {
    v.map_values(|x: Vec<char>| x@)
}

pub proof fn lemma_occurs_at_skip<T>(s: Seq<T>, p: Seq<T>, i: int)
    requires
        0 <= i <= s.len(),
    ensures
        occurs_at(s, p, i) == starts_with(s.skip(i), p),
{
    if occurs_at(s, p, i) {
        assert(s.skip(i).take(p.len() as int) =~= s.subrange(i, i + p.len()));
    }
    if starts_with(s.skip(i), p) {
        assert(s.skip(i).take(p.len() as int) =~= s.subrange(i, i + p.len()));
    }
}

pub fn bytes_occur_at(h: &[u8], n: &[u8], i: usize) -> (r: bool)
    ensures
        r == occurs_at(h@, n@, i as int),
{
    if i > h.len() || n.len() > h.len() - i {
        return false;
    }
    let mut k: usize = 0;
    while k < n.len()
        invariant
            i + n@.len() <= h@.len(),
            h@.len() == h.len(),
            k <= n@.len(),
            forall|j: int| 0 <= j < k ==> h@[i + j] == n@[j],
        decreases n@.len() - k,
    {
        if h[i + k] != n[k] {
            assert(h@.subrange(i as int, i + n@.len())[k as int] != n@[k as int]);
            return false;
        }
        k += 1;
    }
    assert(h@.subrange(i as int, i + n@.len()) =~= n@);
    true
}

pub fn chars_occur_at(h: &[char], n: &[char], i: usize) -> (r: bool)
    ensures
        r == occurs_at(h@, n@, i as int),
{
    if i > h.len() || n.len() > h.len() - i {
        return false;
    }
    let mut k: usize = 0;
    while k < n.len()
        invariant
            i + n@.len() <= h@.len(),
            h@.len() == h.len(),
            k <= n@.len(),
            forall|j: int| 0 <= j < k ==> h@[i + j] == n@[j],
        decreases n@.len() - k,
    {
        if h[i + k] != n[k] {
            assert(h@.subrange(i as int, i + n@.len())[k as int] != n@[k as int]);
            return false;
        }
        k += 1;
    }
    assert(h@.subrange(i as int, i + n@.len()) =~= n@);
    true
}

/// Position of the first occurrence of `needle` in `haystack`.
pub fn find_bytes(haystack: &[u8], needle: &[u8]) -> (r: Option<usize>)
    requires
        needle@.len() > 0,
    ensures
        match r {
            Some(i) => find_first(haystack@, needle@) == Some(i as int),
            None => find_first(haystack@, needle@) is None,
        },
{
    if needle.len() > haystack.len() {
        assert forall|i: int| !is_first_occurrence(haystack@, needle@, i) by {}
        return None;
    }
    let last = haystack.len() - needle.len();
    let mut i: usize = 0;
    while i <= last
        invariant
            last + needle@.len() == haystack@.len(),
            haystack@.len() == haystack.len(),
            needle@.len() > 0,
            i <= last + 1,
            forall|j: int| 0 <= j < i ==> !occurs_at(haystack@, needle@, j),
        decreases last + 1 - i,
    {
        if bytes_occur_at(haystack, needle, i) {
            proof {
                lemma_find_first_some(haystack@, needle@, i as int);
            }
            return Some(i);
        }
        i += 1;
    }
    assert forall|k: int| !is_first_occurrence(haystack@, needle@, k) by {}
    None
}

/// Position of the first occurrence of `needle` in `haystack`.
pub fn find_chars(haystack: &[char], needle: &[char]) -> (r: Option<usize>)
    requires
        needle@.len() > 0,
    ensures
        match r {
            Some(i) => find_first(haystack@, needle@) == Some(i as int),
            None => find_first(haystack@, needle@) is None,
        },
{
    if needle.len() > haystack.len() {
        assert forall|i: int| !is_first_occurrence(haystack@, needle@, i) by {}
        return None;
    }
    let last = haystack.len() - needle.len();
    let mut i: usize = 0;
    while i <= last
        invariant
            last + needle@.len() == haystack@.len(),
            haystack@.len() == haystack.len(),
            needle@.len() > 0,
            i <= last + 1,
            forall|j: int| 0 <= j < i ==> !occurs_at(haystack@, needle@, j),
        decreases last + 1 - i,
    {
        if chars_occur_at(haystack, needle, i) {
            proof {
                lemma_find_first_some(haystack@, needle@, i as int);
            }
            return Some(i);
        }
        i += 1;
    }
    assert forall|k: int| !is_first_occurrence(haystack@, needle@, k) by {}
    None
}

/// Position of the first `c` in `s`.
pub fn chars_index_of(s: &[char], c: char) -> (r: Option<usize>)
    ensures
        match r {
            Some(i) => index_of(s@, c) == Some(i as int),
            None => index_of(s@, c) is None,
        },
{
    proof {
        lemma_index_of_bounds(s@, c);
    }
    let mut i: usize = 0;
    while i < s.len()
        invariant
            i <= s@.len(),
            forall|j: int| 0 <= j < i ==> s@[j] != c,
        decreases s@.len() - i,
    {
        if s[i] == c {
            proof {
                lemma_index_of_first(s@, c, i as int);
            }
            return Some(i);
        }
        i += 1;
    }
    None
}

pub proof fn lemma_index_of_first(s: Seq<char>, c: char, i: int)
    requires
        0 <= i < s.len(),
        s[i] == c,
        forall|j: int| 0 <= j < i ==> s[j] != c,
    ensures
        index_of(s, c) == Some(i),
{
    lemma_index_of_bounds(s, c);
    match index_of(s, c) {
        Some(k) => {
            if k < i {
            } else if k > i {
            }
        },
        None => {},
    }
}

/// The pieces of `s` between occurrences of the non-empty separator `sep`.
pub fn split_chars(s: &[char], sep: &[char]) -> (r: Vec<Vec<char>>)
    requires
        sep@.len() > 0,
    ensures
        views(r@) == split(s@, sep@),
{
    let mut out: Vec<Vec<char>> = Vec::new();
    let mut cur: Vec<char> = Vec::new();
    let mut i: usize = 0;
    assert(s@.skip(0) =~= s@);
    while i < s.len()
        invariant
            sep@.len() > 0,
            i <= s@.len(),
            split(s@, sep@) == views(out@) + split_acc(cur@, s@.skip(i as int), sep@),
        decreases s@.len() - i,
    {
        proof {
            lemma_occurs_at_skip(s@, sep@, i as int);
        }
        if chars_occur_at(s, sep, i) {
            let ghost old_out = out@;
            let ghost old_cur = cur@;
            assert(s@.skip(i as int).skip(sep@.len() as int) =~= s@.skip(i + sep@.len()));
            out.push(cur);
            cur = Vec::new();
            assert(views(out@) =~= views(old_out) + seq![old_cur]);
            assert(cur@ =~= Seq::<char>::empty());
            i = i + sep.len();
        } else {
            assert(s@.skip(i as int).drop_first() =~= s@.skip(i + 1));
            cur.push(s[i]);
            i = i + 1;
        }
    }
    let ghost old_out = out@;
    let ghost old_cur = cur@;
    out.push(cur);
    assert(views(out@) =~= views(old_out) + seq![old_cur]);
    out
}

pub proof fn lemma_occurs_at_shift<T>(h: Seq<T>, n: Seq<T>, f: int, i: int)
    requires
        0 <= f <= h.len(),
        0 <= i,
    ensures
        occurs_at(h.skip(f), n, i) == occurs_at(h, n, f + i),
{
    if occurs_at(h.skip(f), n, i) {
        assert(h.skip(f).subrange(i, i + n.len()) =~= h.subrange(f + i, f + i + n.len()));
    }
    if occurs_at(h, n, f + i) {
        assert(h.skip(f).subrange(i, i + n.len()) =~= h.subrange(f + i, f + i + n.len()));
    }
}

/// Position, relative to `from`, of the first occurrence of `needle` in `h[from..]`.
pub fn find_bytes_from(h: &[u8], from: usize, needle: &[u8]) -> (r: Option<usize>)
    requires
        needle@.len() > 0,
        from <= h@.len(),
    ensures
        match r {
            Some(i) => find_first(h@.skip(from as int), needle@) == Some(i as int) && from + i
                + needle@.len() <= h@.len(),
            None => find_first(h@.skip(from as int), needle@) is None,
        },
{
    let ghost rest = h@.skip(from as int);
    if needle.len() > h.len() - from {
        assert forall|i: int| !is_first_occurrence(rest, needle@, i) by {}
        return None;
    }
    let last = h.len() - from - needle.len();
    let mut i: usize = 0;
    while i <= last
        invariant
            from + last + needle@.len() == h@.len(),
            h@.len() == h.len(),
            rest == h@.skip(from as int),
            needle@.len() > 0,
            i <= last + 1,
            forall|j: int| 0 <= j < i ==> !occurs_at(rest, needle@, j),
        decreases last + 1 - i,
    {
        proof {
            lemma_occurs_at_shift(h@, needle@, from as int, i as int);
        }
        if bytes_occur_at(h, needle, from + i) {
            proof {
                lemma_find_first_some(rest, needle@, i as int);
            }
            return Some(i);
        }
        i += 1;
    }
    assert forall|k: int| !is_first_occurrence(rest, needle@, k) by {}
    None
}

/// Whether `h[from..]` begins with `p`.
pub fn bytes_starts_with_at(h: &[u8], from: usize, p: &[u8]) -> (r: bool)
    requires
        from <= h@.len(),
    ensures
        r == starts_with(h@.skip(from as int), p@),
{
    proof {
        lemma_occurs_at_skip(h@, p@, from as int);
    }
    bytes_occur_at(h, p, from)
}

pub open spec fn digit_char(d: nat) -> char {
    ((d + 48) as u32) as char
}

/// Decimal rendering of `n`, as `Display` prints integers.
pub open spec fn decimal(n: nat) -> Seq<char>
    decreases n,
{
    if n < 10 {
        seq![digit_char(n)]
    } else {
        decimal(n / 10).push(digit_char(n % 10))
    }
}

fn digit(d: u64) -> (r: char)
    requires
        d < 10,
    ensures
        r == digit_char(d as nat),
{
    let b = (d as u8) + 48;
    b as char
}

/// `n` in decimal.
pub fn decimal_string(n: u64) -> (r: String)
    ensures
        r@ == decimal(n as nat),
{
    // digits from least to most significant
    let mut rev: Vec<char> = Vec::new();
    let mut m = n;
    while m >= 10
        invariant
            decimal(n as nat) == decimal(m as nat) + rev@.reverse(),
        decreases m,
    {
        let ghost before = rev@;
        rev.push(digit(m % 10));
        assert(decimal(m as nat) == decimal((m / 10) as nat).push(digit_char((m % 10) as nat)));
        assert(rev@.reverse() =~= seq![digit_char((m % 10) as nat)] + before.reverse());
        assert(decimal((m / 10) as nat).push(digit_char((m % 10) as nat)) + before.reverse()
            =~= decimal((m / 10) as nat) + rev@.reverse());
        m = m / 10;
    }
    rev.push(digit(m));
    let mut out = String::new();
    let mut i = rev.len();
    assert(decimal(n as nat) =~= rev@.reverse());
    while i > 0
        invariant
            i <= rev@.len(),
            out@ == rev@.reverse().take(rev@.len() - i),
        decreases i,
    {
        i -= 1;
        string_push(&mut out, rev[i]);
        assert(out@ =~= rev@.reverse().take(rev@.len() - i));
    }
    assert(rev@.reverse().take(rev@.len() as int) =~= rev@.reverse());
    out
}

/// Whether two strings hold the same characters.
pub fn str_eq(a: &str, b: &str) -> (r: bool)
    ensures
        r == (a@ == b@),
{
    let x = a.to_owned();
    let y = b.to_owned();
    x == y
}

} // verus!
