//! Small string-keyed maps kept as association lists: each key at most once,
//! inserting a key again replaces its value (the behaviour of `BTreeMap::insert`).
use vstd::prelude::*;

verus! {

/// The value stored for `key`: that of its first entry.
pub open spec fn assoc_get<V>(entries: Seq<(String, V)>, key: Seq<char>) -> Option<V>
    decreases entries.len(),
{
    if entries.len() == 0 {
        None
    } else if entries[0].0@ == key {
        Some(entries[0].1)
    } else {
        assoc_get(entries.drop_first(), key)
    }
}

/// The value stored for `key`.
pub fn assoc_lookup<'a, V>(entries: &'a Vec<(String, V)>, key: &str) -> (r: Option<&'a V>)
    ensures
        match r {
            Some(v) => assoc_get(entries@, key@) == Some(*v),
            None => assoc_get(entries@, key@) is None,
        },
{
    let k = key.to_owned();
    let mut i: usize = 0;
    assert(entries@.skip(0) =~= entries@);
    while i < entries.len()
        invariant
            i <= entries@.len(),
            k@ == key@,
            assoc_get(entries@, key@) == assoc_get(entries@.skip(i as int), key@),
        decreases entries@.len() - i,
    {
        assert(entries@.skip(i as int).drop_first() =~= entries@.skip(i + 1));
        if entries[i].0 == k {
            return Some(&entries[i].1);
        }
        i += 1;
    }
    None
}

/// Store `value` under `key`, replacing an earlier value.
pub fn assoc_insert<V>(entries: &mut Vec<(String, V)>, key: String, value: V)
    ensures
        forall|k: Seq<char>|
            #[trigger] assoc_get(final(entries)@, k) == if k == key@ {
                Some(value)
            } else {
                assoc_get(old(entries)@, k)
            },
{
    let ghost before = entries@;
    let mut i: usize = 0;
    while i < entries.len()
        invariant
            i <= entries@.len(),
            entries@ == before,
            before == old(entries)@,
            forall|j: int| 0 <= j < i ==> entries@[j].0@ != key@,
        decreases entries@.len() - i,
    {
        if entries[i].0 == key {
            let ghost k = key;
            let ghost v = value;
            entries.set(i, (key, value));
            proof {
                lemma_assoc_replace(before, entries@, i as int, k, v);
            }
            return;
        }
        i += 1;
    }
    let ghost k = key;
    let ghost v = value;
    entries.push((key, value));
    proof {
        lemma_assoc_append(before, entries@, k, v);
    }
}

proof fn lemma_assoc_replace<V>(before: Seq<(String, V)>, after: Seq<(String, V)>, i: int, key: String, value: V)
    requires
        0 <= i < before.len(),
        before[i].0@ == key@,
        after == before.update(i, (key, value)),
        forall|j: int| 0 <= j < i ==> before[j].0@ != key@,
    ensures
        forall|k: Seq<char>|
            #[trigger] assoc_get(after, k) == if k == key@ {
                Some(value)
            } else {
                assoc_get(before, k)
            },
    decreases i,
{
    assert forall|k: Seq<char>|
        #[trigger] assoc_get(after, k) == if k == key@ {
            Some(value)
        } else {
            assoc_get(before, k)
        } by {
        if i > 0 {
            assert(after.drop_first() =~= before.drop_first().update(i - 1, (key, value)));
            lemma_assoc_replace(before.drop_first(), after.drop_first(), i - 1, key, value);
            assert(assoc_get(after.drop_first(), k) == if k == key@ {
                Some(value)
            } else {
                assoc_get(before.drop_first(), k)
            });
        } else {
            assert(after.drop_first() =~= before.drop_first());
        }
    }
}

proof fn lemma_assoc_append<V>(before: Seq<(String, V)>, after: Seq<(String, V)>, key: String, value: V)
    requires
        after == before.push((key, value)),
        forall|j: int| 0 <= j < before.len() ==> before[j].0@ != key@,
    ensures
        forall|k: Seq<char>|
            #[trigger] assoc_get(after, k) == if k == key@ {
                Some(value)
            } else {
                assoc_get(before, k)
            },
    decreases before.len(),
{
    assert forall|k: Seq<char>|
        #[trigger] assoc_get(after, k) == if k == key@ {
            Some(value)
        } else {
            assoc_get(before, k)
        } by {
        if before.len() > 0 {
            assert(after.drop_first() =~= before.drop_first().push((key, value)));
            lemma_assoc_append(before.drop_first(), after.drop_first(), key, value);
            assert(assoc_get(after.drop_first(), k) == if k == key@ {
                Some(value)
            } else {
                assoc_get(before.drop_first(), k)
            });
        } else {
            assert(after.drop_first() =~= Seq::<(String, V)>::empty());
        }
    }
}

} // verus!
