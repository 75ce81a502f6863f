//! Sequences kept in strictly increasing order of a textual key: the entries
//! of such a sequence are unique per key, and lookups, updates and insertions
//! behave as on a map from key to entry.
use vstd::prelude::*;
use crate::text::{id_lt, lemma_id_lt_irreflexive, lemma_id_lt_total, lemma_id_lt_transitive};

verus! {

/// Keys strictly increase along the sequence.
pub open spec fn sorted_by_key<A>(s: Seq<A>, key: spec_fn(A) -> Seq<char>) -> bool {
    forall|i: int, j: int|
        #![trigger s[i], s[j]]
        0 <= i < j < s.len() ==> id_lt(key(s[i]), key(s[j]))
}

/// The entry at `i` carries the key `k`.
pub open spec fn key_at<A>(s: Seq<A>, key: spec_fn(A) -> Seq<char>, k: Seq<char>, i: int) -> bool {
    0 <= i < s.len() && key(s[i]) == k
}

/// Some entry carries the key `k`.
pub open spec fn has_key<A>(s: Seq<A>, key: spec_fn(A) -> Seq<char>, k: Seq<char>) -> bool {
    exists|i: int| #[trigger] key_at(s, key, k, i)
}

/// The entry that carries the key `k`, if any.
pub open spec fn entry_with_key<A>(s: Seq<A>, key: spec_fn(A) -> Seq<char>, k: Seq<char>) -> Option<
    A,
> {
    if has_key(s, key, k) {
        Some(s[choose|i: int| key_at(s, key, k, i)])
    } else {
        None
    }
}

/// In a sorted sequence the entry at `i` is the one with its key.
pub proof fn lemma_entry_at<A>(s: Seq<A>, key: spec_fn(A) -> Seq<char>, i: int)
    requires
        sorted_by_key(s, key),
        0 <= i < s.len(),
    ensures
        entry_with_key(s, key, key(s[i])) == Some(s[i]),
{
    let k = key(s[i]);
    assert(key_at(s, key, k, i));
    assert(has_key(s, key, k));
    let j = choose|i: int| key_at(s, key, k, i);
    assert(entry_with_key(s, key, k) == Some(s[j]));
    assert(j == i) by {
        if j < i {
            assert(id_lt(key(s[j]), key(s[i])));
            lemma_id_lt_irreflexive(k);
        } else if j > i {
            assert(id_lt(key(s[i]), key(s[j])));
            lemma_id_lt_irreflexive(k);
        }
    }
}

/// The position at which the key `k` sits, or would be inserted, in a sorted
/// sequence: every entry before it has a smaller key and no entry from it on
/// has a smaller key.
pub open spec fn is_slot_for<A>(s: Seq<A>, key: spec_fn(A) -> Seq<char>, k: Seq<char>, pos: int) -> bool {
    &&& 0 <= pos <= s.len()
    &&& forall|i: int| 0 <= i < pos ==> id_lt(key(#[trigger] s[i]), k)
    &&& pos < s.len() ==> !id_lt(key(s[pos]), k)
}

/// Replacing the entry that carries a key with another entry of that key.
pub proof fn lemma_update_same_key<A>(s: Seq<A>, key: spec_fn(A) -> Seq<char>, pos: int, x: A)
    requires
        sorted_by_key(s, key),
        0 <= pos < s.len(),
        key(s[pos]) == key(x),
    ensures
        sorted_by_key(s.update(pos, x), key),
        forall|k: Seq<char>|
            #![trigger entry_with_key(s.update(pos, x), key, k)]
            entry_with_key(s.update(pos, x), key, k) == if k == key(x) {
                Some(x)
            } else {
                entry_with_key(s, key, k)
            },
{
    let t = s.update(pos, x);
    assert(sorted_by_key(t, key)) by {
        assert forall|i: int, j: int| 0 <= i < j < t.len() implies id_lt(key(t[i]), key(t[j])) by {
            assert(id_lt(key(s[i]), key(s[j])));
        }
    }
    assert forall|k: Seq<char>|
        #![trigger entry_with_key(t, key, k)]
        entry_with_key(t, key, k) == if k == key(x) {
            Some(x)
        } else {
            entry_with_key(s, key, k)
        } by {
        if k == key(x) {
            lemma_entry_at(t, key, pos);
        } else {
            if has_key(s, key, k) {
                let i = choose|i: int| key_at(s, key, k, i);
                assert(i != pos);
                assert(t[i] == s[i]);
                lemma_entry_at(s, key, i);
                lemma_entry_at(t, key, i);
            } else {
                if has_key(t, key, k) {
                    let i = choose|i: int| key_at(t, key, k, i);
                    assert(i != pos);
                    assert(key_at(s, key, k, i));
                }
            }
        }
    }
}

/// Inserting an entry with a new key at its slot.
pub proof fn lemma_insert_new_key<A>(s: Seq<A>, key: spec_fn(A) -> Seq<char>, pos: int, x: A)
    requires
        sorted_by_key(s, key),
        is_slot_for(s, key, key(x), pos),
        !has_key(s, key, key(x)),
    ensures
        sorted_by_key(s.insert(pos, x), key),
        forall|k: Seq<char>|
            #![trigger entry_with_key(s.insert(pos, x), key, k)]
            entry_with_key(s.insert(pos, x), key, k) == if k == key(x) {
                Some(x)
            } else {
                entry_with_key(s, key, k)
            },
{
    let t = s.insert(pos, x);
    if pos < s.len() {
        lemma_id_lt_total(key(s[pos]), key(x));
        if key(s[pos]) == key(x) {
            assert(key_at(s, key, key(x), pos));
        }
        assert(key(s[pos]) != key(x));
        assert(id_lt(key(x), key(s[pos])));
    }
    assert(sorted_by_key(t, key)) by {
        assert forall|i: int, j: int| 0 <= i < j < t.len() implies id_lt(key(t[i]), key(t[j])) by {
            if j < pos {
                assert(id_lt(key(s[i]), key(s[j])));
            } else if j == pos {
                assert(id_lt(key(s[i]), key(x)));
            } else if i < pos {
                assert(id_lt(key(s[i]), key(x)));
                if j - 1 > pos {
                    assert(id_lt(key(s[pos]), key(s[j - 1])));
                    lemma_id_lt_transitive(key(x), key(s[pos]), key(s[j - 1]));
                }
                lemma_id_lt_transitive(key(s[i]), key(x), key(s[j - 1]));
            } else if i == pos {
                if j - 1 > pos {
                    assert(id_lt(key(s[pos]), key(s[j - 1])));
                    lemma_id_lt_transitive(key(x), key(s[pos]), key(s[j - 1]));
                }
            } else {
                assert(id_lt(key(s[i - 1]), key(s[j - 1])));
            }
        }
    }
    assert forall|k: Seq<char>|
        #![trigger entry_with_key(t, key, k)]
        entry_with_key(t, key, k) == if k == key(x) {
            Some(x)
        } else {
            entry_with_key(s, key, k)
        } by {
        if k == key(x) {
            lemma_entry_at(t, key, pos);
        } else {
            if has_key(s, key, k) {
                let i = choose|i: int| key_at(s, key, k, i);
                lemma_entry_at(s, key, i);
                let ti = if i < pos {
                    i
                } else {
                    i + 1
                };
                assert(t[ti] == s[i]);
                lemma_entry_at(t, key, ti);
            } else {
                if has_key(t, key, k) {
                    let i = choose|i: int| key_at(t, key, k, i);
                    assert(i != pos);
                    if i < pos {
                        assert(key_at(s, key, k, i));
                    } else {
                        assert(key_at(s, key, k, i - 1));
                    }
                }
            }
        }
    }
}

/// A sub-sequence of a sorted sequence keeps its order.
pub proof fn lemma_filter_sorted<A>(s: Seq<A>, key: spec_fn(A) -> Seq<char>, p: spec_fn(A) -> bool)
    requires
        sorted_by_key(s, key),
    ensures
        sorted_by_key(s.filter(p), key),
    decreases s.len(),
{
    reveal(Seq::filter);
    if s.len() > 0 {
        let rest = s.drop_last();
        assert(sorted_by_key(rest, key)) by {
            assert forall|i: int, j: int| 0 <= i < j < rest.len() implies id_lt(
                key(rest[i]),
                key(rest[j]),
            ) by {
                assert(id_lt(key(s[i]), key(s[j])));
            }
        }
        lemma_filter_sorted(rest, key, p);
        if p(s.last()) {
            let f = rest.filter(p);
            assert forall|i: int| 0 <= i < f.len() implies id_lt(key(f[i]), key(s.last())) by {
                assert(f.contains(f[i]));
                rest.lemma_filter_contains_rev(p, f[i]);
                assert(rest.contains(f[i]));
                let j = choose|j: int| 0 <= j < rest.len() && rest[j] == f[i];
                assert(id_lt(key(s[j]), key(s[s.len() - 1])));
            }
            assert forall|i: int, j: int| 0 <= i < j < f.push(s.last()).len() implies id_lt(
                key(f.push(s.last())[i]),
                key(f.push(s.last())[j]),
            ) by {
                if j < f.len() {
                } else {
                    assert(f.push(s.last())[j] == s.last());
                }
            }
        }
    }
}

/// One step of filtering a growing prefix.
pub proof fn lemma_filter_take_step<A>(s: Seq<A>, p: spec_fn(A) -> bool, i: int)
    requires
        0 <= i < s.len(),
    ensures
        s.take(i + 1).filter(p) == if p(s[i]) {
            s.take(i).filter(p).push(s[i])
        } else {
            s.take(i).filter(p)
        },
{
    reveal(Seq::filter);
    assert(s.take(i + 1).drop_last() =~= s.take(i));
    assert(s.take(i + 1).last() == s[i]);
}

/// Filtering by a predicate every entry meets keeps the whole sequence.
pub proof fn lemma_filter_all<A>(s: Seq<A>, p: spec_fn(A) -> bool)
    requires
        forall|i: int| 0 <= i < s.len() ==> p(#[trigger] s[i]),
    ensures
        s.filter(p) == s,
    decreases s.len(),
{
    reveal(Seq::filter);
    if s.len() > 0 {
        lemma_filter_all(s.drop_last(), p);
        assert(s.drop_last().push(s.last()) =~= s);
    } else {
        assert(s.filter(p) =~= s);
    }
}

} // verus!
