//! Association-list primitives.
//!
//! Every string-keyed mapping of the router core (canonical parameters,
//! extension data, per-id indexes) is stored as a vector of key/value pairs.
//! The spec-level model is the sequence of pairs; `kv_map` abstracts it
//! further into a mathematical map keyed by the first occurrence of a key.

use vstd::prelude::*;

verus! {

/// View of a vector of `(String, V)` pairs as a sequence of
/// `(Seq<char>, V)` pairs.
pub open spec fn kv_seq<V>(entries: Seq<(String, V)>) -> Seq<(Seq<char>, V)> {
    entries.map(|i: int, e: (String, V)| (e.0@, e.1))
}

/// Index of the first pair whose key is `key`, or -1 if the key is absent.
pub open spec fn kv_first_idx<V>(s: Seq<(Seq<char>, V)>, key: Seq<char>) -> int
    decreases s.len(),
{
    if s.len() == 0 {
        -1
    } else if s[0].0 == key {
        0
    } else {
        let rest = kv_first_idx(s.drop_first(), key);
        if rest == -1 {
            -1
        } else {
            rest + 1
        }
    }
}

/// What `kv_first_idx` returns: either -1 and no pair has the key, or the
/// smallest index of a pair carrying the key.
pub proof fn lemma_kv_first_idx<V>(s: Seq<(Seq<char>, V)>, key: Seq<char>)
    ensures
        kv_first_idx(s, key) == -1 ==> forall|j: int| 0 <= j < s.len() ==> s[j].0 != key,
        kv_first_idx(s, key) != -1 ==> {
            let i = kv_first_idx(s, key);
            &&& 0 <= i < s.len()
            &&& s[i].0 == key
            &&& forall|j: int| 0 <= j < i ==> s[j].0 != key
        },
    decreases s.len(),
{
    if s.len() > 0 && s[0].0 != key {
        let rest = s.drop_first();
        lemma_kv_first_idx(rest, key);
        let r = kv_first_idx(rest, key);
        assert(forall|j: int| 0 <= j < rest.len() ==> rest[j] == s[j + 1]);
        if r == -1 {
            assert forall|j: int| 0 <= j < s.len() implies s[j].0 != key by {
                if j > 0 {
                    assert(rest[j - 1] == s[j]);
                }
            }
        } else {
            assert(kv_first_idx(s, key) == r + 1);
            assert(s[r + 1] == rest[r]);
            assert forall|j: int| 0 <= j < r + 1 implies s[j].0 != key by {
                if j > 0 {
                    assert(rest[j - 1] == s[j]);
                }
            }
        }
    }
}

/// The first index is the only characterisation: any index that carries the
/// key with no earlier occurrence is `kv_first_idx`.
pub proof fn lemma_kv_first_idx_is<V>(s: Seq<(Seq<char>, V)>, key: Seq<char>, i: int)
    requires
        0 <= i < s.len(),
        s[i].0 == key,
        forall|j: int| 0 <= j < i ==> s[j].0 != key,
    ensures
        kv_first_idx(s, key) == i,
{
    lemma_kv_first_idx(s, key);
}

/// First value stored under `key`, if any.
pub open spec fn kv_find<V>(s: Seq<(Seq<char>, V)>, key: Seq<char>) -> Option<V> {
    let i = kv_first_idx(s, key);
    if i == -1 {
        None
    } else {
        Some(s[i].1)
    }
}

/// Keys are pairwise distinct.
pub open spec fn kv_unique<V>(s: Seq<(Seq<char>, V)>) -> bool {
    forall|i: int, j: int| 0 <= i < j < s.len() ==> s[i].0 != s[j].0
}

/// The association list as a mathematical map.
pub open spec fn kv_map<V>(s: Seq<(Seq<char>, V)>) -> Map<Seq<char>, V> {
    Map::new(|k: Seq<char>| kv_find(s, k) is Some, |k: Seq<char>| kv_find(s, k)->Some_0)
}

/// Model of insertion: replace the pair in place if the key is present,
/// otherwise append the new pair at the end.
pub open spec fn kv_put<V>(s: Seq<(Seq<char>, V)>, key: Seq<char>, value: V) -> Seq<
    (Seq<char>, V),
> {
    let i = kv_first_idx(s, key);
    if i == -1 {
        s.push((key, value))
    } else {
        s.update(i, (key, value))
    }
}

/// How `kv_put` behaves under lookup, and that it preserves key uniqueness.
pub proof fn lemma_kv_put_find<V>(
    s: Seq<(Seq<char>, V)>,
    key: Seq<char>,
    value: V,
    probe: Seq<char>,
)
    ensures
        kv_find(kv_put(s, key, value), probe) == if probe == key {
            Some(value)
        } else {
            kv_find(s, probe)
        },
        kv_unique(s) ==> kv_unique(kv_put(s, key, value)),
{
    let s2 = kv_put(s, key, value);
    let i = kv_first_idx(s, key);
    lemma_kv_first_idx(s, key);
    if i == -1 {
        // appended at the end
        if probe == key {
            lemma_kv_first_idx_is(s2, probe, s.len() as int);
        } else {
            let p = kv_first_idx(s, probe);
            lemma_kv_first_idx(s, probe);
            if p == -1 {
                lemma_kv_first_idx(s2, probe);
                if kv_first_idx(s2, probe) != -1 {
                    assert(s2[kv_first_idx(s2, probe)].0 == probe);
                }
            } else {
                lemma_kv_first_idx_is(s2, probe, p);
            }
        }
    } else {
        // replaced in place at index i
        if probe == key {
            lemma_kv_first_idx_is(s2, probe, i);
        } else {
            let p = kv_first_idx(s, probe);
            lemma_kv_first_idx(s, probe);
            if p == -1 {
                lemma_kv_first_idx(s2, probe);
                if kv_first_idx(s2, probe) != -1 {
                    assert(s2[kv_first_idx(s2, probe)].0 == probe);
                }
            } else {
                lemma_kv_first_idx_is(s2, probe, p);
            }
        }
    }
}

/// `kv_put` on a unique list updates the abstract map pointwise.
pub proof fn lemma_kv_put_map<V>(s: Seq<(Seq<char>, V)>, key: Seq<char>, value: V)
    ensures
        kv_map(kv_put(s, key, value)) =~= kv_map(s).insert(key, value),
        kv_unique(s) ==> kv_unique(kv_put(s, key, value)),
{
    assert forall|k: Seq<char>| true implies #[trigger] kv_find(kv_put(s, key, value), k)
        == if k == key {
        Some(value)
    } else {
        kv_find(s, k)
    } by {
        lemma_kv_put_find(s, key, value, k);
    }
    lemma_kv_put_find(s, key, value, key);
}

/// Looks up the first pair whose key equals `key`.
pub fn kv_get<'a, V>(entries: &'a Vec<(String, V)>, key: &str) -> (r: Option<&'a V>)
    ensures
        match r {
            Some(v) => kv_find(kv_seq(entries@), key@) == Some(*v),
            None => kv_find(kv_seq(entries@), key@) is None,
        },
{
    let owned: String = key.to_owned();
    let ghost s = kv_seq(entries@);
    let mut i: usize = 0;
    while i < entries.len()
        invariant
            i <= entries.len(),
            owned@ == key@,
            s == kv_seq(entries@),
            forall|j: int| 0 <= j < i ==> s[j].0 != key@,
        decreases entries.len() - i,
    {
        if entries[i].0 == owned {
            proof {
                lemma_kv_first_idx_is(s, key@, i as int);
            }
            return Some(&entries[i].1);
        }
        i = i + 1;
    }
    proof {
        lemma_kv_first_idx(s, key@);
        if kv_first_idx(s, key@) != -1 {
            assert(s[kv_first_idx(s, key@)].0 == key@);
        }
    }
    None
}

/// Inserts `value` under `key`: replaces the first pair with this key in
/// place, or appends a new pair at the end.
pub fn kv_insert<V>(entries: &mut Vec<(String, V)>, key: String, value: V)
    ensures
        kv_seq(final(entries)@) == kv_put(kv_seq(old(entries)@), key@, value),
{
    let ghost s = kv_seq(entries@);
    let mut i: usize = 0;
    while i < entries.len()
        invariant
            i <= entries.len(),
            s == kv_seq(entries@),
            entries@ == old(entries)@,
            forall|j: int| 0 <= j < i ==> s[j].0 != key@,
        decreases entries.len() - i,
    {
        if entries[i].0 == key {
            proof {
                lemma_kv_first_idx_is(s, key@, i as int);
            }
            entries.set(i, (key, value));
            proof {
                assert(kv_seq(entries@) =~= kv_put(s, key@, value));
            }
            return ;
        }
        i = i + 1;
    }
    proof {
        lemma_kv_first_idx(s, key@);
        if kv_first_idx(s, key@) != -1 {
            assert(s[kv_first_idx(s, key@)].0 == key@);
        }
    }
    entries.push((key, value));
    proof {
        assert(kv_seq(entries@) =~= kv_put(s, key@, value));
    }
}

} // verus!
