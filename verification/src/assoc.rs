//! Association lists keyed by strings, used as small maps: a lookup finds
//! the first entry with the key, and an insertion replaces the value of a
//! present key or appends a new entry.

use vstd::prelude::*;
use crate::native::npm_registry::{keys_unique, spec_lookup};
use crate::text::str_eq;

verus! {

/// What a lookup finds: nothing exactly when no entry has the key; else the
/// value of the first entry that has it.
pub proof fn lemma_lookup_first<V>(s: Seq<(String, V)>, k: Seq<char>)
    ensures
        spec_lookup(s, k) is None <==> forall|i: int| 0 <= i < s.len() ==> #[trigger] s[i].0@ != k,
        forall|i: int|
            0 <= i < s.len() && #[trigger] s[i].0@ == k && (forall|j: int| 0 <= j < i ==> s[j].0@ != k)
                ==> spec_lookup(s, k) == Some(s[i].1),
    decreases s.len(),
{
    if s.len() > 0 {
        let t = s.drop_first();
        lemma_lookup_first(t, k);
        assert forall|i: int| 0 <= i < t.len() implies #[trigger] t[i] == s[i + 1] by {}
        if s[0].0@ != k {
            assert forall|i: int|
                0 <= i < s.len() && #[trigger] s[i].0@ == k && (forall|j: int| 0 <= j < i ==> s[j].0@ != k)
                    implies spec_lookup(s, k) == Some(s[i].1) by {
                assert(i > 0);
                assert(t[i - 1] == s[i]);
                assert forall|j: int| 0 <= j < i - 1 implies t[j].0@ != k by {
                    assert(t[j] == s[j + 1]);
                }
            }
            if spec_lookup(s, k) is None {
                assert forall|i: int| 0 <= i < s.len() implies #[trigger] s[i].0@ != k by {
                    if i > 0 {
                        assert(t[i - 1] == s[i]);
                    }
                }
            } else {
                let w = choose|i: int| 0 <= i < t.len() && #[trigger] t[i].0@ == k;
                assert(t[w] == s[w + 1]);
            }
        }
    }
}

/// In a list with unique keys, the lookup of a key held at `i` gives the
/// value there.
pub proof fn lemma_lookup_unique<V>(s: Seq<(String, V)>, i: int)
    requires
        keys_unique(s),
        0 <= i < s.len(),
    ensures
        spec_lookup(s, s[i].0@) == Some(s[i].1),
{
    lemma_lookup_first(s, s[i].0@);
    assert forall|j: int| 0 <= j < i implies s[j].0@ != s[i].0@ by {}
}

/// Stores `value` under `key`: a present key has its value replaced in
/// place; a new key is appended.
pub fn assoc_insert<V>(entries: &mut Vec<(String, V)>, key: String, value: V)
    requires
        keys_unique(old(entries)@),
    ensures
        keys_unique(final(entries)@),
        forall|k: Seq<char>|
            #[trigger] spec_lookup(final(entries)@, k) == if k == key@ {
                Some(value)
            } else {
                spec_lookup(old(entries)@, k)
            },
{
    let ghost before = entries@;
    let mut i: usize = 0;
    while i < entries.len()
        invariant
            i <= entries.len(),
            entries@ == before,
            before == old(entries)@,
            keys_unique(before),
            forall|j: int| 0 <= j < i ==> #[trigger] entries@[j].0@ != key@,
        decreases entries.len() - i,
    {
        if str_eq(entries[i].0.as_str(), key.as_str()) {
            let ghost k0 = key@;
            entries.set(i, (key, value));
            proof {
                let after = entries@;
                assert(after == before.update(i as int, after[i as int]));
                assert(after[i as int].0@ == k0);
                assert(keys_unique(after)) by {
                    assert forall|a: int, b: int| 0 <= a < b < after.len() implies #[trigger] after[a].0@
                        != #[trigger] after[b].0@ by {
                        assert(after[a].0@ == before[a].0@);
                        assert(after[b].0@ == before[b].0@);
                    }
                }
                assert forall|k: Seq<char>|
                    #[trigger] spec_lookup(after, k) == if k == k0 {
                        Some(value)
                    } else {
                        spec_lookup(before, k)
                    } by {
                    lemma_lookup_first(after, k);
                    lemma_lookup_first(before, k);
                    if k == k0 {
                        lemma_lookup_unique(after, i as int);
                    } else {
                        assert forall|j: int| 0 <= j < after.len() implies (after[j].0@ == k <==> before[j].0@
                            == k) && (after[j].0@ == k ==> after[j].1 == before[j].1) by {}
                        if spec_lookup(before, k) is Some {
                            let w = choose|j: int| 0 <= j < before.len() && #[trigger] before[j].0@ == k;
                            lemma_lookup_unique(before, w);
                            lemma_lookup_unique(after, w);
                        }
                    }
                }
            }
            return;
        }
        i = i + 1;
    }
    let ghost k0 = key@;
    entries.push((key, value));
    proof {
        let after = entries@;
        assert(after == before.push(after[before.len() as int]));
        assert(keys_unique(after)) by {
            assert forall|a: int, b: int| 0 <= a < b < after.len() implies #[trigger] after[a].0@
                != #[trigger] after[b].0@ by {
                if b == before.len() {
                    assert(after[a] == before[a]);
                } else {
                    assert(after[a] == before[a]);
                    assert(after[b] == before[b]);
                }
            }
        }
        assert forall|k: Seq<char>|
            #[trigger] spec_lookup(after, k) == if k == k0 {
                Some(value)
            } else {
                spec_lookup(before, k)
            } by {
            lemma_lookup_first(after, k);
            lemma_lookup_first(before, k);
            if k == k0 {
                lemma_lookup_unique(after, before.len() as int);
            } else {
                assert forall|j: int| 0 <= j < before.len() implies #[trigger] after[j] == before[j] by {}
                if spec_lookup(before, k) is Some {
                    let w = choose|j: int| 0 <= j < before.len() && #[trigger] before[j].0@ == k;
                    lemma_lookup_unique(before, w);
                    lemma_lookup_unique(after, w);
                } else {
                    assert forall|j: int| 0 <= j < after.len() implies #[trigger] after[j].0@ != k by {
                        if j < before.len() {
                            assert(after[j] == before[j]);
                        }
                    }
                }
            }
        }
    }
}

} // verus!
