//! Spec-level helpers for sequences of key/value pairs keyed by strings.
//!
//! The coordinator's in-memory tables are vectors of pairs whose keys are
//! pairwise distinct.  These functions describe such a table at the level of
//! its view, a sequence of `(Seq<char>, V)` pairs.

use vstd::prelude::*;

verus! {

/// No key occurs twice.
pub open spec fn distinct_keys<V>(s: Seq<(Seq<char>, V)>) -> bool {
    forall|i: int, j: int|
        0 <= i < j < s.len() ==> (#[trigger] s[i]).0 != (#[trigger] s[j]).0
}

/// Some pair carries the key `k`.
pub open spec fn has_key<V>(s: Seq<(Seq<char>, V)>, k: Seq<char>) -> bool {
    exists|i: int| 0 <= i < s.len() && (#[trigger] s[i]).0 == k
}

/// The index of the pair carrying `k` (meaningful when the keys are
/// distinct and `k` occurs).
pub open spec fn index_of_key<V>(s: Seq<(Seq<char>, V)>, k: Seq<char>) -> int {
    choose|i: int| 0 <= i < s.len() && (#[trigger] s[i]).0 == k
}

/// The value bound to `k`.
pub open spec fn value_of<V>(s: Seq<(Seq<char>, V)>, k: Seq<char>) -> V {
    s[index_of_key(s, k)].1
}

/// In a table with distinct keys, the pair at index `i` is the one and only
/// pair carrying its key.
pub proof fn lemma_key_at<V>(s: Seq<(Seq<char>, V)>, i: int)
    requires
        distinct_keys(s),
        0 <= i < s.len(),
    ensures
        has_key(s, s[i].0),
        index_of_key(s, s[i].0) == i,
        value_of(s, s[i].0) == s[i].1,
{
    assert(has_key(s, s[i].0));
    let j = index_of_key(s, s[i].0);
    assert(0 <= j < s.len() && s[j].0 == s[i].0);
    if j < i {
        assert(s[j].0 != s[i].0);
    } else if i < j {
        assert(s[i].0 != s[j].0);
    }
}

/// Pushing a pair with a fresh key keeps the keys distinct.
pub proof fn lemma_push_distinct<V>(s: Seq<(Seq<char>, V)>, k: Seq<char>, v: V)
    requires
        distinct_keys(s),
        !has_key(s, k),
    ensures
        distinct_keys(s.push((k, v))),
        has_key(s.push((k, v)), k),
        index_of_key(s.push((k, v)), k) == s.len(),
        value_of(s.push((k, v)), k) == v,
        forall|k2: Seq<char>| k2 != k ==> #[trigger] has_key(s.push((k, v)), k2) == has_key(s, k2),
        forall|k2: Seq<char>|
            k2 != k && has_key(s, k2) ==> #[trigger] value_of(s.push((k, v)), k2) == value_of(s, k2),
{
    let t = s.push((k, v));
    assert forall|i: int, j: int| 0 <= i < j < t.len() implies (#[trigger] t[i]).0 != (#[trigger] t[j]).0 by {
        if j < s.len() {
            assert(t[i] == s[i] && t[j] == s[j]);
        } else {
            assert(t[j] == (k, v));
            assert(t[i] == s[i]);
            if s[i].0 == k {
                assert(has_key(s, k));
            }
        }
    }
    assert(t[s.len() as int].0 == k);
    lemma_key_at(t, s.len() as int);
    assert forall|k2: Seq<char>| k2 != k implies #[trigger] has_key(t, k2) == has_key(s, k2) by {
        if has_key(s, k2) {
            let p = index_of_key(s, k2);
            assert(t[p] == s[p]);
            assert(has_key(t, k2));
        }
        if has_key(t, k2) {
            let p = index_of_key(t, k2);
            assert(p < s.len());
            assert(t[p] == s[p]);
            assert(has_key(s, k2));
        }
    }
    assert forall|k2: Seq<char>| k2 != k && has_key(s, k2) implies #[trigger] value_of(t, k2)
        == value_of(s, k2) by {
        let p = index_of_key(s, k2);
        assert(0 <= p < s.len() && s[p].0 == k2);
        assert(t[p] == s[p]);
        lemma_key_at(t, p);
        lemma_key_at(s, p);
    }
}

/// Removing the pair at index `i` keeps the keys distinct and drops its key.
pub proof fn lemma_remove_distinct<V>(s: Seq<(Seq<char>, V)>, i: int)
    requires
        distinct_keys(s),
        0 <= i < s.len(),
    ensures
        distinct_keys(s.remove(i)),
        !has_key(s.remove(i), s[i].0),
        forall|k: Seq<char>| k != s[i].0 ==> #[trigger] has_key(s.remove(i), k) == has_key(s, k),
        forall|k: Seq<char>| k != s[i].0 && has_key(s, k) ==> #[trigger] value_of(s.remove(i), k) == value_of(s, k),
{
    let t = s.remove(i);
    s.remove_ensures(i);
    assert forall|p: int, q: int| 0 <= p < q < t.len() implies (#[trigger] t[p]).0 != (#[trigger] t[q]).0 by {
        let p0: int = if p < i { p } else { p + 1 };
        let q0: int = if q < i { q } else { q + 1 };
        assert(t[p] == s[p0] && t[q] == s[q0]);
    }
    assert forall|p: int| 0 <= p < t.len() implies (#[trigger] t[p]).0 != s[i].0 by {
        let p0: int = if p < i { p } else { p + 1 };
        assert(t[p] == s[p0]);
    }
    assert forall|k: Seq<char>| k != s[i].0 implies #[trigger] has_key(t, k) == has_key(s, k) by {
        if has_key(s, k) {
            let p0 = index_of_key(s, k);
            assert(0 <= p0 < s.len() && s[p0].0 == k);
            let p: int = if p0 < i { p0 } else { p0 - 1 };
            assert(t[p] == s[p0]);
            assert(has_key(t, k));
        }
        if has_key(t, k) {
            let p = index_of_key(t, k);
            assert(0 <= p < t.len() && t[p].0 == k);
            let p0: int = if p < i { p } else { p + 1 };
            assert(t[p] == s[p0]);
            assert(has_key(s, k));
        }
    }
    assert forall|k: Seq<char>| k != s[i].0 && has_key(s, k) implies #[trigger] value_of(t, k) == value_of(s, k) by {
        let p0 = index_of_key(s, k);
        assert(0 <= p0 < s.len() && s[p0].0 == k);
        let p: int = if p0 < i { p0 } else { p0 - 1 };
        assert(t[p] == s[p0]);
        lemma_key_at(t, p);
        lemma_key_at(s, p0);
    }
}

/// Updating the value at index `i` keeps the keys distinct and leaves every
/// other binding as it was.
pub proof fn lemma_update_distinct<V>(s: Seq<(Seq<char>, V)>, i: int, v: V)
    requires
        distinct_keys(s),
        0 <= i < s.len(),
    ensures
        distinct_keys(s.update(i, (s[i].0, v))),
        has_key(s.update(i, (s[i].0, v)), s[i].0),
        value_of(s.update(i, (s[i].0, v)), s[i].0) == v,
        forall|k: Seq<char>| #[trigger] has_key(s.update(i, (s[i].0, v)), k) == has_key(s, k),
        forall|k: Seq<char>| k != s[i].0 && has_key(s, k) ==> #[trigger] value_of(s.update(i, (s[i].0, v)), k) == value_of(s, k),
{
    let t = s.update(i, (s[i].0, v));
    assert forall|p: int, q: int| 0 <= p < q < t.len() implies (#[trigger] t[p]).0 != (#[trigger] t[q]).0 by {
        assert(t[p].0 == s[p].0 && t[q].0 == s[q].0);
    }
    lemma_key_at(t, i);
    assert forall|k: Seq<char>| #[trigger] has_key(t, k) == has_key(s, k) by {
        if has_key(s, k) {
            let p = index_of_key(s, k);
            assert(t[p].0 == s[p].0);
            assert(has_key(t, k));
        }
        if has_key(t, k) {
            let p = index_of_key(t, k);
            assert(s[p].0 == t[p].0);
            assert(has_key(s, k));
        }
    }
    assert forall|k: Seq<char>| k != s[i].0 && has_key(s, k) implies #[trigger] value_of(t, k) == value_of(s, k) by {
        let p = index_of_key(s, k);
        assert(0 <= p < s.len() && s[p].0 == k);
        assert(p != i);
        assert(t[p] == s[p]);
        lemma_key_at(t, p);
        lemma_key_at(s, p);
    }
}

} // verus!
