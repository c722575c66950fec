//! Stable sorting.

use vstd::prelude::*;

use crate::text;

verus! {

broadcast use crate::text::group_views;

/// Values that are sorted by a key. Two values of which neither comes before the other
/// have the same key.
pub trait SortKey: View + Sized {
    /// Whether `a` comes before `b`.
    spec fn precedes(a: Self::V, b: Self::V) -> bool;

    /// Of two values at most one comes before the other.
    proof fn lemma_asymmetric(a: Self::V, b: Self::V)
        ensures
            !(Self::precedes(a, b) && Self::precedes(b, a)),
    ;

    /// What comes before `c` comes before `b`, or else `b` comes before `c`.
    proof fn lemma_between(a: Self::V, b: Self::V, c: Self::V)
        requires
            Self::precedes(a, c),
        ensures
            Self::precedes(a, b) || Self::precedes(b, c),
    ;

    fn is_before(&self, other: &Self) -> (r: bool)
        ensures
            r == Self::precedes(self@, other@),
    ;
}

/// `s` with `x` put behind the last value that it does not come before.
pub open spec fn inserted<T: SortKey>(s: Seq<T::V>, x: T::V) -> Seq<T::V>
    decreases s.len(),
{
    if s.len() > 0 && T::precedes(x, s.last()) {
        inserted::<T>(s.drop_last(), x).push(s.last())
    } else {
        s.push(x)
    }
}

/// The values of `s` in order; those with the same key stay in the order that they have.
pub open spec fn sorted<T: SortKey>(s: Seq<T::V>) -> Seq<T::V>
    decreases s.len(),
{
    if s.len() == 0 {
        s
    } else {
        inserted::<T>(sorted::<T>(s.drop_last()), s.last())
    }
}

fn insert_in_order<T: SortKey>(out: &mut Vec<T>, x: T)
    requires
        old(out)@.len() < usize::MAX,
    ensures
        text::views(final(out)@) == inserted::<T>(text::views(old(out)@), x@),
        final(out)@.len() == old(out)@.len() + 1,
{
    let ghost all = text::views(out@);
    let mut n: usize = out.len();
    assert(all.take(n as int) =~= all);
    assert(all.skip(n as int) =~= Seq::<T::V>::empty());
    assert(inserted::<T>(all, x@) =~= inserted::<T>(all.take(n as int), x@) + all.skip(n as int));
    while n > 0 && x.is_before(&out[n - 1])
        invariant
            n <= out@.len(),
            all == text::views(out@),
            inserted::<T>(all, x@) == inserted::<T>(all.take(n as int), x@) + all.skip(n as int),
        decreases n,
    {
        assert(all.take(n as int).last() == out@[n - 1]@);
        assert(all.take(n as int).drop_last() =~= all.take(n - 1));
        assert(inserted::<T>(all.take(n - 1), x@).push(all[n - 1]) + all.skip(n as int) =~= inserted::<T>(
            all.take(n - 1),
            x@,
        ) + all.skip(n - 1));
        n -= 1;
    }
    proof {
        if n > 0 {
            assert(all.take(n as int).last() == out@[n - 1]@);
        }
        assert(inserted::<T>(all.take(n as int), x@) == all.take(n as int).push(x@));
    }
    out.insert(n, x);
    assert(text::views(out@) =~= all.take(n as int).push(x@) + all.skip(n as int));
}

/// Sorts by the keys, keeping the order of values with the same key.
pub fn sort_stable<T: SortKey>(items: Vec<T>) -> (r: Vec<T>)
    ensures
        text::views(r@) == sorted::<T>(text::views(items@)),
{
    let ghost all = text::views(items@);
    let mut pending = items;
    let mut waiting: Vec<T> = Vec::new();
    while pending.len() > 0
        invariant
            all =~= text::views(pending@) + text::views(waiting@).reverse(),
        decreases pending@.len(),
    {
        if let Some(x) = pending.pop() {
            waiting.push(x);
        }
    }
    let mut out: Vec<T> = Vec::new();
    let ghost count = all.len();
    assert(all.take(0) =~= Seq::<T::V>::empty());
    assert(waiting@.len() <= usize::MAX) by {
        assert(waiting.len() == waiting@.len());
    }
    while waiting.len() > 0
        invariant
            count == all.len(),
            out@.len() + waiting@.len() == count,
            count <= usize::MAX,
            text::views(waiting@) =~= all.skip(out@.len() as int).reverse(),
            text::views(out@) == sorted::<T>(all.take(out@.len() as int)),
        decreases waiting@.len(),
    {
        let ghost n = out@.len() as int;
        let ghost before = text::views(waiting@);
        assert(before.last() == all[n]);
        if let Some(x) = waiting.pop() {
            assert(all.take(n + 1).drop_last() =~= all.take(n));
            assert(all.take(n + 1).last() == x@);
            insert_in_order(&mut out, x);
            assert(text::views(waiting@) =~= before.drop_last());
            assert(all.skip(n).reverse().drop_last() =~= all.skip(n + 1).reverse());
        }
    }
    assert(all.take(out@.len() as int) =~= all);
    out
}

// ── What holds of every sort ─────────────────────────────────────────────────

/// Whether no value stands behind one that it comes before.
pub open spec fn in_order<T: SortKey>(s: Seq<T::V>) -> bool {
    forall|i: int, j: int| 0 <= i < j < s.len() ==> !T::precedes(#[trigger] s[j], #[trigger] s[i])
}

/// Whether two values have the same key.
pub open spec fn same_key<T: SortKey>(a: T::V, b: T::V) -> bool {
    !T::precedes(a, b) && !T::precedes(b, a)
}

/// The values of `s` with the key of `k`, in the order that they have there.
pub open spec fn with_key<T: SortKey>(s: Seq<T::V>, k: T::V) -> Seq<T::V>
    decreases s.len(),
{
    if s.len() == 0 {
        s
    } else if same_key::<T>(s.last(), k) {
        with_key::<T>(s.drop_last(), k).push(s.last())
    } else {
        with_key::<T>(s.drop_last(), k)
    }
}

proof fn lemma_inserted_in_order<T: SortKey>(s: Seq<T::V>, x: T::V)
    requires
        in_order::<T>(s),
    ensures
        in_order::<T>(inserted::<T>(s, x)),
        inserted::<T>(s, x).to_multiset() == s.to_multiset().insert(x),
        forall|y: T::V|
            (forall|i: int| 0 <= i < s.len() ==> !T::precedes(y, #[trigger] s[i])) && !T::precedes(y, x) ==> (forall|
                i: int,
            | 0 <= i < inserted::<T>(s, x).len() ==> !T::precedes(y, #[trigger] inserted::<T>(s, x)[i])),
    decreases s.len(),
{
    broadcast use vstd::seq_lib::group_to_multiset_ensures;

    if s.len() > 0 && T::precedes(x, s.last()) {
        let rest = s.drop_last();
        let last = s.last();
        assert forall|i: int, j: int| 0 <= i < j < rest.len() implies !T::precedes(
            #[trigger] rest[j],
            #[trigger] rest[i],
        ) by {
            assert(rest[j] == s[j] && rest[i] == s[i]);
        }
        lemma_inserted_in_order::<T>(rest, x);
        let r = inserted::<T>(s, x);
        let q = inserted::<T>(rest, x);
        assert(s =~= rest.push(last));
        assert(r.to_multiset() =~= s.to_multiset().insert(x));
        T::lemma_asymmetric(x, last);
        assert forall|i: int| 0 <= i < rest.len() implies !T::precedes(last, #[trigger] rest[i]) by {
            assert(rest[i] == s[i]);
            assert(s[s.len() - 1] == last);
        }
        assert forall|i: int, j: int| 0 <= i < j < r.len() implies !T::precedes(
            #[trigger] r[j],
            #[trigger] r[i],
        ) by {
            if j == r.len() - 1 {
                assert(r[j] == last);
                assert(r[i] == q[i]);
            } else {
                assert(r[j] == q[j] && r[i] == q[i]);
            }
        }
        assert forall|y: T::V|
            (forall|i: int| 0 <= i < s.len() ==> !T::precedes(y, #[trigger] s[i])) && !T::precedes(y, x) implies (
        forall|i: int| 0 <= i < r.len() ==> !T::precedes(y, #[trigger] r[i])) by {
            assert forall|i: int| 0 <= i < rest.len() implies !T::precedes(y, #[trigger] rest[i]) by {
                assert(rest[i] == s[i]);
            }
            assert(s[s.len() - 1] == last);
            assert forall|i: int| 0 <= i < r.len() implies !T::precedes(y, #[trigger] r[i]) by {
                if i < q.len() {
                    assert(r[i] == q[i]);
                } else {
                    assert(r[i] == last);
                }
            }
        }
    } else {
        let r = s.push(x);
        assert(r.to_multiset() =~= s.to_multiset().insert(x));
        assert forall|i: int, j: int| 0 <= i < j < r.len() implies !T::precedes(
            #[trigger] r[j],
            #[trigger] r[i],
        ) by {
            if j == s.len() {
                if T::precedes(x, s[i]) {
                    T::lemma_between(x, s.last(), s[i]);
                    if i < s.len() - 1 {
                        assert(!T::precedes(s[s.len() - 1], s[i]));
                    }
                }
            } else {
                assert(r[j] == s[j] && r[i] == s[i]);
            }
        }
    }
}

/// Sorting gives the same values, in order.
pub proof fn sorting_orders<T: SortKey>(s: Seq<T::V>)
    ensures
        in_order::<T>(sorted::<T>(s)),
        sorted::<T>(s).to_multiset() == s.to_multiset(),
    decreases s.len(),
{
    broadcast use vstd::seq_lib::group_to_multiset_ensures;

    if s.len() > 0 {
        sorting_orders::<T>(s.drop_last());
        lemma_inserted_in_order::<T>(sorted::<T>(s.drop_last()), s.last());
        assert(s =~= s.drop_last().push(s.last()));
    }
}

proof fn lemma_inserted_with_key<T: SortKey>(s: Seq<T::V>, x: T::V, k: T::V)
    ensures
        with_key::<T>(inserted::<T>(s, x), k) == with_key::<T>(s.push(x), k),
    decreases s.len(),
{
    if s.len() > 0 && T::precedes(x, s.last()) {
        reveal_with_fuel(with_key, 3);
        let rest = s.drop_last();
        let last = s.last();
        lemma_inserted_with_key::<T>(rest, x, k);
        let r = inserted::<T>(s, x);
        assert(r.drop_last() =~= inserted::<T>(rest, x));
        assert(r.last() == last);
        assert(s.push(x).drop_last() =~= s);
        assert(rest.push(x).drop_last() =~= rest);
        // A value before another has another key, so at most one of the two is kept.
        if same_key::<T>(last, k) && same_key::<T>(x, k) {
            T::lemma_between(x, k, last);
        }
    }
}

/// Sorting keeps the order of values with the same key.
pub proof fn sorting_is_stable<T: SortKey>(s: Seq<T::V>, k: T::V)
    ensures
        with_key::<T>(sorted::<T>(s), k) == with_key::<T>(s, k),
    decreases s.len(),
{
    if s.len() > 0 {
        let rest = s.drop_last();
        sorting_is_stable::<T>(rest, k);
        lemma_inserted_with_key::<T>(sorted::<T>(rest), s.last(), k);
        assert(sorted::<T>(rest).push(s.last()).drop_last() =~= sorted::<T>(rest));
    }
}

/// To have the same key is passed on.
pub proof fn lemma_same_key_transitive<T: SortKey>(a: T::V, b: T::V, c: T::V)
    requires
        same_key::<T>(a, b),
        same_key::<T>(b, c),
    ensures
        same_key::<T>(a, c),
{
    if T::precedes(a, c) {
        T::lemma_between(a, b, c);
    }
    if T::precedes(c, a) {
        T::lemma_between(c, b, a);
    }
}

proof fn lemma_same_key_self<T: SortKey>(a: T::V)
    ensures
        same_key::<T>(a, a),
{
    T::lemma_asymmetric(a, a);
}

/// What has a key is found under it.
proof fn lemma_key_found<T: SortKey>(s: Seq<T::V>, k: T::V)
    ensures
        with_key::<T>(s, k).len() > 0 ==> exists|i: int| 0 <= i < s.len() && same_key::<T>(#[trigger] s[i], k),
    decreases s.len(),
{
    if s.len() > 0 {
        lemma_key_found::<T>(s.drop_last(), k);
        if same_key::<T>(s.last(), k) {
            assert(same_key::<T>(s[s.len() - 1], k));
        } else if with_key::<T>(s, k).len() > 0 {
            let i = choose|i: int| 0 <= i < s.drop_last().len() && same_key::<T>(#[trigger] s.drop_last()[i], k);
            assert(same_key::<T>(s[i], k));
        }
    }
}

/// What is in order is fixed by what stands under each key.
proof fn lemma_order_unique<T: SortKey>(u: Seq<T::V>, v: Seq<T::V>)
    requires
        in_order::<T>(u),
        in_order::<T>(v),
        forall|k: T::V| #[trigger] with_key::<T>(u, k) == with_key::<T>(v, k),
    ensures
        u == v,
    decreases u.len(),
{
    if u.len() == 0 {
        if v.len() > 0 {
            lemma_same_key_self::<T>(v.last());
            assert(with_key::<T>(u, v.last()) == with_key::<T>(v, v.last()));
            assert(with_key::<T>(u, v.last()).len() == 0);
        }
        assert(u =~= v);
    } else {
        let x = u.last();
        lemma_same_key_self::<T>(x);
        assert(with_key::<T>(u, x) == with_key::<T>(v, x));
        assert(with_key::<T>(u, x).last() == x);
        if v.len() == 0 {
            assert(with_key::<T>(v, x).len() == 0);
        }
        let y = v.last();
        lemma_same_key_self::<T>(y);
        assert(with_key::<T>(u, y) == with_key::<T>(v, y));
        lemma_key_found::<T>(u, y);
        lemma_key_found::<T>(v, x);
        let i = choose|i: int| 0 <= i < u.len() && same_key::<T>(#[trigger] u[i], y);
        let j = choose|j: int| 0 <= j < v.len() && same_key::<T>(#[trigger] v[j], x);
        assert(u[u.len() - 1] == x && v[v.len() - 1] == y);
        assert(!T::precedes(x, u[i])) by {
            if i < u.len() - 1 {
                assert(!T::precedes(u[u.len() - 1], u[i]));
            }
        }
        assert(!T::precedes(y, v[j])) by {
            if j < v.len() - 1 {
                assert(!T::precedes(v[v.len() - 1], v[j]));
            }
        }
        if T::precedes(x, y) {
            T::lemma_between(x, u[i], y);
        }
        if T::precedes(y, x) {
            T::lemma_between(y, v[j], x);
        }
        assert(same_key::<T>(y, x));
        assert(with_key::<T>(v, x).last() == y);
        assert(x == y);
        let (p, q) = (u.drop_last(), v.drop_last());
        assert forall|a: int, b: int| 0 <= a < b < p.len() implies !T::precedes(#[trigger] p[b], #[trigger] p[a]) by {
            assert(p[a] == u[a] && p[b] == u[b]);
        }
        assert forall|a: int, b: int| 0 <= a < b < q.len() implies !T::precedes(#[trigger] q[b], #[trigger] q[a]) by {
            assert(q[a] == v[a] && q[b] == v[b]);
        }
        assert forall|k: T::V| #[trigger] with_key::<T>(p, k) == with_key::<T>(q, k) by {
            assert(with_key::<T>(u, k) == with_key::<T>(v, k));
            if same_key::<T>(x, k) {
                assert(with_key::<T>(u, k).drop_last() =~= with_key::<T>(p, k));
                assert(with_key::<T>(v, k).drop_last() =~= with_key::<T>(q, k));
            }
        }
        lemma_order_unique::<T>(p, q);
        assert(p.push(x) =~= u);
        assert(q.push(y) =~= v);
    }
}

/// Two sequences that agree on what stands under each key are sorted into the same one.
pub proof fn sorting_goes_by_keys<T: SortKey>(s: Seq<T::V>, t: Seq<T::V>)
    requires
        forall|k: T::V| #[trigger] with_key::<T>(s, k) == with_key::<T>(t, k),
    ensures
        sorted::<T>(s) == sorted::<T>(t),
{
    sorting_orders::<T>(s);
    sorting_orders::<T>(t);
    assert forall|k: T::V| #[trigger] with_key::<T>(sorted::<T>(s), k) == with_key::<T>(sorted::<T>(t), k) by {
        sorting_is_stable::<T>(s, k);
        sorting_is_stable::<T>(t, k);
        assert(with_key::<T>(s, k) == with_key::<T>(t, k));
    }
    lemma_order_unique::<T>(sorted::<T>(s), sorted::<T>(t));
}

/// What stands under a key in two sequences stands there one after the other.
pub proof fn lemma_with_key_concat<T: SortKey>(a: Seq<T::V>, b: Seq<T::V>, k: T::V)
    ensures
        with_key::<T>(a + b, k) == with_key::<T>(a, k) + with_key::<T>(b, k),
    decreases b.len(),
{
    if b.len() == 0 {
        assert(a + b =~= a);
        assert(with_key::<T>(a, k) + with_key::<T>(b, k) =~= with_key::<T>(a, k));
    } else {
        assert((a + b).drop_last() =~= a + b.drop_last());
        assert((a + b).last() == b.last());
        lemma_with_key_concat::<T>(a, b.drop_last(), k);
        assert(with_key::<T>(a + b, k) =~= with_key::<T>(a, k) + with_key::<T>(b, k));
    }
}

/// Nothing stands under a key that nothing has.
pub proof fn lemma_without_key<T: SortKey>(s: Seq<T::V>, k: T::V)
    requires
        forall|i: int| 0 <= i < s.len() ==> !same_key::<T>(#[trigger] s[i], k),
    ensures
        with_key::<T>(s, k) == Seq::<T::V>::empty(),
{
    lemma_key_found::<T>(s, k);
    assert(with_key::<T>(s, k) =~= Seq::<T::V>::empty());
}

} // verus!
