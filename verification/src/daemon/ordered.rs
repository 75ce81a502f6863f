//! Sequences kept in a fixed order: where a new entry goes.
use vstd::prelude::*;

verus! {

/// Whether `p` is where `e` goes in `s`: after every entry it does not come
/// before, and before the entry that follows.
pub open spec fn is_insertion_point<A>(
    s: Seq<A>,
    e: A,
    before: spec_fn(A, A) -> bool,
    p: int,
) -> bool {
    &&& 0 <= p <= s.len()
    &&& forall|i: int| 0 <= i < p ==> !before(e, #[trigger] s[i])
    &&& p < s.len() ==> before(e, s[p])
}

/// Whether `t` is `s` with `e` inserted where it goes.
pub open spec fn inserted_in_order<A>(
    s: Seq<A>,
    e: A,
    before: spec_fn(A, A) -> bool,
    t: Seq<A>,
) -> bool {
    exists|p: int| is_insertion_point(s, e, before, p) && t == s.insert(p, e)
}

/// Whether `s` is in strictly increasing order under `before`.
pub open spec fn strictly_ordered<A>(s: Seq<A>, before: spec_fn(A, A) -> bool) -> bool {
    forall|i: int, j: int| #![trigger s[i], s[j]] 0 <= i < j < s.len() ==> before(s[i], s[j])
}

/// Whether `before` is transitive.
pub open spec fn transitive<A>(before: spec_fn(A, A) -> bool) -> bool {
    forall|a: A, b: A, c: A| #[trigger] before(a, b) && #[trigger] before(b, c) ==> before(a, c)
}

/// Inserting an entry where it goes keeps a sequence ordered, when the entry
/// compares with every entry present.
pub proof fn lemma_insert_keeps_order<A>(s: Seq<A>, e: A, before: spec_fn(A, A) -> bool, p: int)
    requires
        strictly_ordered(s, before),
        is_insertion_point(s, e, before, p),
        transitive(before),
        forall|i: int| 0 <= i < s.len() ==> before(#[trigger] s[i], e) || before(e, s[i]),
    ensures
        strictly_ordered(s.insert(p, e), before),
{
    let t = s.insert(p, e);
    assert forall|i: int, j: int| #![trigger t[i], t[j]] 0 <= i < j < t.len() implies before(
        t[i],
        t[j],
    ) by {
        if j < p {
            assert(t[i] == s[i] && t[j] == s[j]);
        } else if j == p {
            assert(t[i] == s[i]);
            assert(!before(e, s[i]));
        } else if i < p {
            assert(t[i] == s[i] && t[j] == s[j - 1]);
            assert(!before(e, s[i]));
            assert(before(s[i], e));
            if j - 1 > p {
                assert(before(s[p], s[j - 1]));
                assert(before(e, s[j - 1]));
            }
        } else if i == p {
            assert(t[j] == s[j - 1]);
            if j - 1 > p {
                assert(before(s[p], s[j - 1]));
            }
        } else {
            assert(t[i] == s[i - 1] && t[j] == s[j - 1]);
        }
    }
}

/// Removing an entry keeps a sequence ordered.
pub proof fn lemma_remove_keeps_order<A>(s: Seq<A>, before: spec_fn(A, A) -> bool, k: int)
    requires
        strictly_ordered(s, before),
        0 <= k < s.len(),
    ensures
        strictly_ordered(s.remove(k), before),
{
    let t = s.remove(k);
    assert forall|i: int, j: int| #![trigger t[i], t[j]] 0 <= i < j < t.len() implies before(
        t[i],
        t[j],
    ) by {
        if j < k {
            assert(t[i] == s[i] && t[j] == s[j]);
        } else if i < k {
            assert(t[i] == s[i] && t[j] == s[j + 1]);
        } else {
            assert(t[i] == s[i + 1] && t[j] == s[j + 1]);
        }
    }
}

/// Inserting `e` anywhere adds exactly `e` to what a sequence holds.
pub proof fn lemma_insert_contains<A>(s: Seq<A>, p: int, e: A)
    requires
        0 <= p <= s.len(),
    ensures
        forall|x: A| #[trigger] s.insert(p, e).contains(x) <==> (s.contains(x) || x == e),
{
    let t = s.insert(p, e);
    assert forall|x: A| #[trigger] t.contains(x) <==> (s.contains(x) || x == e) by {
        if t.contains(x) {
            let q = choose|q: int| 0 <= q < t.len() && t[q] == x;
            if q < p {
                assert(s[q] == x);
            } else if q > p {
                assert(s[q - 1] == x);
            }
        }
        if s.contains(x) {
            let q = choose|q: int| 0 <= q < s.len() && s[q] == x;
            if q < p {
                assert(t[q] == x);
            } else {
                assert(t[q + 1] == x);
            }
        }
        if x == e {
            assert(t[p] == x);
        }
    }
}

/// Taking entries from the back of `all` one at a time: the entry at `n - 1`
/// joins the entries from `n` on. Its key is new among them exactly when the
/// keys from `n - 1` on stay distinct; a key already held by an entry that
/// stands for one of them repeats a key of `all`.
pub proof fn lemma_take_from_back<A>(all: Seq<A>, key: spec_fn(A) -> Seq<char>, n: int, present: Seq<A>)
    requires
        1 <= n <= all.len(),
        forall|x: A| #[trigger] present.contains(x) <==> all.skip(n).contains(x),
        all.skip(n).map_values(key).no_duplicates(),
    ensures
        forall|x: A| #[trigger] all.skip(n - 1).contains(x) <==> (all.skip(n).contains(x) || x == all[n - 1]),
        (exists|i: int| 0 <= i < present.len() && key(present[i]) == key(all[n - 1])) ==> !all.map_values(
            key,
        ).no_duplicates(),
        !(exists|i: int| 0 <= i < present.len() && key(present[i]) == key(all[n - 1])) ==> all.skip(
            n - 1,
        ).map_values(key).no_duplicates(),
{
    let lo = all.skip(n - 1);
    let hi = all.skip(n);
    assert(lo =~= seq![all[n - 1]] + hi);
    assert forall|x: A| #[trigger] lo.contains(x) <==> (hi.contains(x) || x == all[n - 1]) by {
        if lo.contains(x) {
            let q = choose|q: int| 0 <= q < lo.len() && lo[q] == x;
            if q > 0 {
                assert(hi[q - 1] == x);
            }
        }
        if hi.contains(x) {
            let q = choose|q: int| 0 <= q < hi.len() && hi[q] == x;
            assert(lo[q + 1] == x);
        }
        if x == all[n - 1] {
            assert(lo[0] == x);
        }
    }
    if exists|i: int| 0 <= i < present.len() && key(present[i]) == key(all[n - 1]) {
        let i = choose|i: int| 0 <= i < present.len() && key(present[i]) == key(all[n - 1]);
        assert(present.contains(present[i]));
        let q = choose|q: int| 0 <= q < hi.len() && hi[q] == present[i];
        let ks = all.map_values(key);
        assert(ks[n - 1] == ks[n + q]);
    } else {
        let ks = lo.map_values(key);
        let kh = hi.map_values(key);
        assert forall|i: int, j: int| 0 <= i < ks.len() && 0 <= j < ks.len() && i != j implies ks[i]
            != ks[j] by {
            if i > 0 && j > 0 {
                assert(ks[i] == kh[i - 1] && ks[j] == kh[j - 1]);
            } else if i == 0 {
                assert(present.contains(hi[j - 1]));
                let m = choose|m: int| 0 <= m < present.len() && present[m] == hi[j - 1];
                assert(key(present[m]) == ks[j]);
            } else {
                assert(present.contains(hi[i - 1]));
                let m = choose|m: int| 0 <= m < present.len() && present[m] == hi[i - 1];
                assert(key(present[m]) == ks[i]);
            }
        }
    }
}

} // verus!
