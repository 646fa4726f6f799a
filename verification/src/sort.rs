//! Stable sorting by time, as `sort_by` with a comparison of times does it.

use vstd::prelude::*;
use crate::timefmt::{Timespec, ts_lt, ts_le, timespec_lt};

verus! {

/// A value ordered by a time, as seen through its view.
pub trait TimeKeyed: View + Sized {
    /// The time by which a view is ordered.
    spec fn key_of(v: Self::V) -> Timespec;

    /// The time by which this value is ordered.
    fn time_key(&self) -> (r: Timespec)
        ensures
            r == Self::key_of(self@),
    ;
}

/// The number of leading elements of `s` whose key is not after `k`.
pub open spec fn count_not_after<V>(s: Seq<V>, k: Timespec, key: spec_fn(V) -> Timespec) -> nat
    decreases s.len(),
{
    if s.len() == 0 || ts_lt(k, key(s[0])) {
        0
    } else {
        1 + count_not_after(s.drop_first(), k, key)
    }
}

/// Inserts `x` after the leading elements whose key is not after its own.
pub open spec fn insert_by_key<V>(s: Seq<V>, x: V, key: spec_fn(V) -> Timespec) -> Seq<V> {
    s.insert(count_not_after(s, key(x), key) as int, x)
}

/// The stable sort of `s` by `key`: ordered by key, equal keys in their
/// order of `s`.
pub open spec fn sort_by_key<V>(s: Seq<V>, key: spec_fn(V) -> Timespec) -> Seq<V>
    decreases s.len(),
{
    if s.len() == 0 {
        s
    } else {
        insert_by_key(sort_by_key(s.drop_last(), key), s.last(), key)
    }
}

/// The views of a sequence of values.
pub open spec fn views<T: View>(s: Seq<T>) -> Seq<T::V> {
    s.map_values(|x: T| x@)
}

/// The view key of a `TimeKeyed` type, as a closure.
pub open spec fn key_fn<T: TimeKeyed>() -> spec_fn(T::V) -> Timespec {
    |v: T::V| T::key_of(v)
}

/// `s` is ordered by `key`.
pub open spec fn sorted_by_key<V>(s: Seq<V>, key: spec_fn(V) -> Timespec) -> bool {
    forall|i: int, j: int| 0 <= i < j < s.len() ==> ts_le(key(s[i]), key(s[j]))
}

proof fn lemma_count_bound<V>(s: Seq<V>, k: Timespec, key: spec_fn(V) -> Timespec)
    ensures
        count_not_after(s, k, key) <= s.len(),
        forall|i: int| 0 <= i < count_not_after(s, k, key) ==> !ts_lt(k, #[trigger] key(s[i])),
        count_not_after(s, k, key) < s.len() ==> ts_lt(k, key(s[count_not_after(s, k, key) as int])),
    decreases s.len(),
{
    if s.len() > 0 && !ts_lt(k, key(s[0])) {
        lemma_count_bound(s.drop_first(), k, key);
        assert forall|i: int| 0 <= i < count_not_after(s, k, key) implies !ts_lt(
            k,
            #[trigger] key(s[i]),
        ) by {
            if i > 0 {
                assert(s[i] == s.drop_first()[i - 1]);
            }
        }
    }
}

/// Inserting by key keeps a sequence ordered.
proof fn lemma_insert_sorted<V>(s: Seq<V>, x: V, key: spec_fn(V) -> Timespec)
    requires
        sorted_by_key(s, key),
    ensures
        sorted_by_key(insert_by_key(s, x, key), key),
        insert_by_key(s, x, key).len() == s.len() + 1,
        insert_by_key(s, x, key).to_multiset() == s.to_multiset().insert(x),
{
    lemma_count_bound(s, key(x), key);
    let p = count_not_after(s, key(x), key) as int;
    let r = insert_by_key(s, x, key);
    assert forall|i: int, j: int| 0 <= i < j < r.len() implies ts_le(key(r[i]), key(r[j])) by {
        if j < p {
        } else if j == p {
            assert(!ts_lt(key(x), key(s[i])));
        } else if i < p {
            assert(!ts_lt(key(x), key(s[i])));
            assert(r[j] == s[j - 1]);
            if p < s.len() {
                assert(ts_lt(key(x), key(s[p])));
                assert(ts_le(key(s[p]), key(s[j - 1])) || p == j - 1);
            }
        } else if i == p {
            assert(ts_lt(key(x), key(s[p])));
            assert(ts_le(key(s[p]), key(s[j - 1])) || p == j - 1);
        } else {
            assert(r[i] == s[i - 1] && r[j] == s[j - 1]);
        }
    }
    vstd::seq_lib::to_multiset_insert(s, p, x);
}

/// The stable sort by key is ordered by key and holds the same elements:
/// sorting by time puts earlier items first.
pub proof fn lemma_sort_by_key_sorted<V>(s: Seq<V>, key: spec_fn(V) -> Timespec)
    ensures
        sorted_by_key(sort_by_key(s, key), key),
        sort_by_key(s, key).to_multiset() == s.to_multiset(),
        sort_by_key(s, key).len() == s.len(),
    decreases s.len(),
{
    if s.len() > 0 {
        lemma_sort_by_key_sorted(s.drop_last(), key);
        lemma_insert_sorted(sort_by_key(s.drop_last(), key), s.last(), key);
        assert(s == s.drop_last().push(s.last()));
        assert(s.to_multiset() == s.drop_last().to_multiset().insert(s.last())) by {
            s.drop_last().to_multiset_ensures();
        }
    }
}

/// Sorts values stably by their time key.
pub fn stable_sort_by_time<T: TimeKeyed>(v: Vec<T>) -> (r: Vec<T>)
    ensures
        views(r@) == sort_by_key(views(v@), key_fn::<T>()),
{
    let ghost orig = v@;
    let mut v = v;
    let mut r: Vec<T> = Vec::new();
    let ghost mut done: int = 0;
    while v.len() > 0
        invariant
            0 <= done <= orig.len(),
            v@ == orig.subrange(done, orig.len() as int),
            views(r@) == sort_by_key(views(orig.subrange(0, done)), key_fn::<T>()),
        decreases v.len(),
    {
        let x = v.remove(0);
        let k = x.time_key();
        let mut p: usize = 0;
        let ghost rv = views(r@);
        assert(rv.subrange(0, rv.len() as int) =~= rv);
        while p < r.len() && !timespec_lt(&k, &r[p].time_key())
            invariant
                p <= r.len(),
                rv == views(r@),
                count_not_after(rv, k, key_fn::<T>()) == p + count_not_after(
                    rv.subrange(p as int, rv.len() as int),
                    k,
                    key_fn::<T>(),
                ),
            decreases r.len() - p,
        {
            assert(rv.subrange(p as int, rv.len() as int).drop_first() =~= rv.subrange(
                p + 1,
                rv.len() as int,
            ));
            p = p + 1;
        }
        proof {
            if p < r.len() {
                assert(rv.subrange(p as int, rv.len() as int)[0] == rv[p as int]);
            }
        }
        assert(count_not_after(rv, k, key_fn::<T>()) == p);
        r.insert(p, x);
        proof {
            let pre = orig.subrange(0, done + 1);
            assert(pre.drop_last() =~= orig.subrange(0, done));
            assert(views(pre).drop_last() =~= views(pre.drop_last()));
            assert(views(pre).last() == x@);
            assert(views(r@) =~= rv.insert(p as int, x@));
            done = done + 1;
        }
        assert(v@ =~= orig.subrange(done, orig.len() as int));
    }
    assert(orig.subrange(0, done) =~= orig);
    r
}

} // verus!
