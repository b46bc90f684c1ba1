//! Sorted copies of integer lists.

use vstd::prelude::*;

verus! {

/// Whether a list rises, equal neighbours allowed.
pub open spec fn ascending(s: Seq<i64>) -> bool {
    forall|i: int, j: int| 0 <= i <= j < s.len() ==> s[i] <= s[j]
}

/// Whether a list is another one, sorted.
pub open spec fn is_sorted_of(sorted: Seq<i64>, s: Seq<i64>) -> bool {
    ascending(sorted) && sorted.to_multiset() == s.to_multiset()
}

/// A list has one sorted form.
pub proof fn law_sorted_form_is_unique(a: Seq<i64>, b: Seq<i64>, s: Seq<i64>)
    requires
        is_sorted_of(a, s),
        is_sorted_of(b, s),
    ensures
        a == b,
{
    let leq = |x: i64, y: i64| x <= y;
    assert(vstd::relations::sorted_by(a, leq));
    assert(vstd::relations::sorted_by(b, leq));
    vstd::seq_lib::lemma_sorted_unique(a, b, leq);
}

/// The sorted form of a list.
pub fn sort_copy(v: &Vec<i64>) -> (r: Vec<i64>)
    ensures
        is_sorted_of(r@, v@),
        r@.len() == v@.len(),
{
    broadcast use vstd::seq_lib::group_to_multiset_ensures;

    let mut out: Vec<i64> = Vec::new();
    let mut i: usize = 0;
    assert(v@.subrange(0, 0) =~= Seq::empty());
    assert(out@ =~= Seq::empty());
    while i < v.len()
        invariant
            i <= v@.len(),
            out@.len() == i,
            ascending(out@),
            out@.to_multiset() == v@.subrange(0, i as int).to_multiset(),
        decreases v.len() - i,
    {
        let x: i64 = v[i];
        let mut at: usize = out.len();
        while at > 0 && out[at - 1] > x
            invariant
                at <= out@.len(),
                ascending(out@),
                forall|j: int| at <= j < out@.len() ==> out@[j] > x,
            decreases at,
        {
            at = at - 1;
        }
        let ghost before = out@;
        out.insert(at, x);
        proof {
            vstd::seq_lib::to_multiset_insert(before, at as int, x);
            let part = v@.subrange(0, i as int);
            assert(v@.subrange(0, i + 1) =~= part.push(x));
            vstd::seq_lib::to_multiset_build(part, x);
        }
        i = i + 1;
    }
    assert(v@.subrange(0, v@.len() as int) =~= v@);
    out
}

/// Whether every item of a list comes before those behind it.
pub open spec fn in_order(before: spec_fn(int, int) -> bool, s: Seq<int>) -> bool {
    forall|j: int, k: int|
        0 <= j < k < s.len() ==> before(#[trigger] s[j], #[trigger] s[k])
}

/// Whether no two items come before each other.
pub open spec fn is_strict(before: spec_fn(int, int) -> bool) -> bool {
    forall|x: int, y: int| #[trigger] before(x, y) ==> !before(y, x)
}

/// A list in strict order holds nothing twice.
proof fn lemma_no_item_twice(before: spec_fn(int, int) -> bool, s: Seq<int>)
    requires
        is_strict(before),
        in_order(before, s),
    ensures
        s.no_duplicates(),
{
    assert forall|i: int, j: int| 0 <= i < s.len() && 0 <= j < s.len() && i != j implies s[i]
        != s[j] by {
        if i < j {
            assert(before(s[i], s[j]));
        } else {
            assert(before(s[j], s[i]));
        }
    }
}

/// A list in strict order of as many places as there are holds every place.
pub proof fn lemma_every_place(before: spec_fn(int, int) -> bool, s: Seq<int>, p: int)
    requires
        is_strict(before),
        in_order(before, s),
        forall|j: int| 0 <= j < s.len() ==> 0 <= #[trigger] s[j] < s.len(),
        0 <= p < s.len(),
    ensures
        s.contains(p),
{
    lemma_no_item_twice(before, s);
    s.unique_seq_to_set();
    let n = s.len() as int;
    let all = vstd::set_lib::set_int_range(0, n);
    vstd::set_lib::lemma_int_range(0, n);
    if !s.to_set().contains(p) {
        let rest = all.remove(p);
        assert(s.to_set().subset_of(rest)) by {
            assert forall|k: int| s.to_set().contains(k) implies rest.contains(k) by {
                let i = choose|i: int| 0 <= i < s.len() && s[i] == k;
                assert(0 <= s[i] < n);
            }
        }
        vstd::set_lib::lemma_len_subset(s.to_set(), rest);
    }
}

/// Of two lists in order with the same items that agree up to a place, the item of the one there
/// is that of the other or comes behind it.
proof fn lemma_next_in_order(
    before: spec_fn(int, int) -> bool,
    a: Seq<int>,
    b: Seq<int>,
    j: int,
)
    requires
        is_strict(before),
        in_order(before, a),
        in_order(before, b),
        a.contains(a[j]) ==> b.contains(a[j]),
        0 <= j < a.len(),
        j < b.len(),
        forall|i: int| 0 <= i < j ==> #[trigger] a[i] == b[i],
    ensures
        a[j] == b[j] || before(b[j], a[j]),
{
    assert(a.contains(a[j]));
    let k = choose|k: int| 0 <= k < b.len() && #[trigger] b[k] == a[j];
    if k < j {
        assert(a[k] == b[k]);
        assert(before(a[k], a[j]));
    } else if k > j {
        assert(before(b[j], b[k]));
    }
}

proof fn lemma_one_order_to(
    before: spec_fn(int, int) -> bool,
    a: Seq<int>,
    b: Seq<int>,
    n: int,
)
    requires
        is_strict(before),
        in_order(before, a),
        in_order(before, b),
        forall|x: int| #[trigger] a.contains(x) <==> b.contains(x),
        0 <= n <= a.len(),
        a.len() == b.len(),
    ensures
        forall|i: int| 0 <= i < n ==> #[trigger] a[i] == b[i],
    decreases n,
{
    if n > 0 {
        lemma_one_order_to(before, a, b, n - 1);
        assert(b.contains(b[n - 1]));
        assert(a.contains(b[n - 1]));
        lemma_next_in_order(before, a, b, n - 1);
        lemma_next_in_order(before, b, a, n - 1);
    }
}

/// Some items have one strict order.
pub proof fn law_one_order(before: spec_fn(int, int) -> bool, a: Seq<int>, b: Seq<int>)
    requires
        is_strict(before),
        in_order(before, a),
        in_order(before, b),
        forall|x: int| #[trigger] a.contains(x) <==> b.contains(x),
    ensures
        a == b,
{
    lemma_no_item_twice(before, a);
    lemma_no_item_twice(before, b);
    a.unique_seq_to_set();
    b.unique_seq_to_set();
    assert(a.to_set() =~= b.to_set()) by {
        assert forall|x: int| a.to_set().contains(x) <==> b.to_set().contains(x) by {
            assert(a.contains(x) <==> b.contains(x));
        }
    }
    lemma_one_order_to(before, a, b, a.len() as int);
    assert(a =~= b);
}

/// A value that has its place among others of its kind.
pub trait Ranked: Sized {
    /// Whether the value comes before another.
    spec fn before(self, other: Self) -> bool;

    /// Whether the value comes before another.
    fn is_before(&self, other: &Self) -> (r: bool)
        ensures
            r == self.before(*other),
    ;
}

/// Values in order with one more, behind those that it does not come before.
pub open spec fn inserted<T: Ranked>(s: Seq<T>, e: T) -> Seq<T>
    decreases s.len(),
{
    if s.len() > 0 && e.before(s.last()) {
        inserted(s.drop_last(), e).push(s.last())
    } else {
        s.push(e)
    }
}

/// Values in order; of two that neither comes before the other, the first stays first.
pub open spec fn ranked<T: Ranked>(s: Seq<T>) -> Seq<T>
    decreases s.len(),
{
    if s.len() == 0 {
        Seq::empty()
    } else {
        inserted(ranked(s.drop_last()), s.last())
    }
}

/// The places of some values, in order.
pub fn ranked_places<T: Ranked>(items: &Vec<T>) -> (r: Vec<usize>)
    ensures
        r@.len() == ranked(items@).len(),
        r@.len() == items@.len(),
        forall|j: int|
            0 <= j < r@.len() ==> #[trigger] r@[j] < items@.len() && items@[r@[j] as int]
                == ranked(items@)[j],
{
    let ghost all = items@;
    let mut order: Vec<usize> = Vec::new();
    let n: usize = items.len();
    let mut i: usize = 0;
    assert(all.subrange(0, 0) =~= Seq::empty());
    while i < n
        invariant
            i <= n == all.len(),
            all == items@,
            order@.len() == i,
            order@.len() == ranked(all.subrange(0, i as int)).len(),
            forall|j: int|
                0 <= j < order@.len() ==> #[trigger] order@[j] < n && all[order@[j] as int]
                    == ranked(all.subrange(0, i as int))[j],
        decreases n - i,
    {
        let ghost e = all[i as int];
        let ghost s = ranked(all.subrange(0, i as int));
        let ghost before = order@;
        proof {
            let part = all.subrange(0, i + 1);
            assert(part.drop_last() =~= all.subrange(0, i as int));
            assert(part.last() == e);
        }
        let mut at: usize = order.len();
        assert(s.subrange(0, at as int) =~= s);
        assert(inserted(s, e) =~= inserted(s.subrange(0, at as int), e) + s.subrange(
            at as int,
            s.len() as int,
        ));
        while at > 0 && items[i].is_before(&items[order[at - 1]])
            invariant
                i < n == all.len(),
                all == items@,
                e == all[i as int],
                at <= s.len(),
                order@ == before,
                order@.len() == s.len(),
                forall|j: int|
                    0 <= j < order@.len() ==> #[trigger] order@[j] < n && all[order@[j] as int]
                        == s[j],
                inserted(s, e) == inserted(s.subrange(0, at as int), e) + s.subrange(
                    at as int,
                    s.len() as int,
                ),
            decreases at,
        {
            proof {
                let part = s.subrange(0, at as int);
                assert(part.last() == s[at - 1]);
                assert(part.drop_last() =~= s.subrange(0, at - 1));
                assert(inserted(part, e) + s.subrange(at as int, s.len() as int) =~= inserted(
                    s.subrange(0, at - 1),
                    e,
                ) + s.subrange(at - 1, s.len() as int));
            }
            at = at - 1;
        }
        order.insert(at, i);
        proof {
            let part = s.subrange(0, at as int);
            if at > 0 {
                assert(part.last() == s[at - 1]);
            }
            assert(inserted(part, e) =~= part.push(e));
            let now = inserted(s, e);
            assert(now =~= s.insert(at as int, e));
            assert forall|j: int| 0 <= j < order@.len() implies #[trigger] order@[j] < n
                && all[order@[j] as int] == now[j] by {
                if j < at {
                    assert(order@[j] == before[j]);
                } else if j > at {
                    assert(order@[j] == before[j - 1]);
                }
            }
        }
        i = i + 1;
    }
    assert(all.subrange(0, i as int) =~= all);
    order
}

/// Whether no value comes before one that stands ahead of it.
pub open spec fn in_rank_order<T: Ranked>(s: Seq<T>) -> bool {
    forall|i: int, j: int| 0 <= i < j < s.len() ==> !(#[trigger] s[j]).before(#[trigger] s[i])
}

/// Whether coming before is an order: not both ways round, and what does not come before
/// carries over.
pub open spec fn is_order<T: Ranked>() -> bool {
    &&& forall|a: T, b: T| #![trigger a.before(b)] !(a.before(b) && b.before(a))
    &&& forall|a: T, b: T, c: T|
        #![trigger a.before(b), b.before(c)]
        !a.before(b) && !b.before(c) ==> !a.before(c)
}

/// Values put in order are in order, and are the values that there were.
pub proof fn law_ranked_is_in_order<T: Ranked>(s: Seq<T>)
    requires
        is_order::<T>(),
    ensures
        in_rank_order(ranked(s)),
        ranked(s).to_multiset() == s.to_multiset(),
    decreases s.len(),
{
    if s.len() > 0 {
        law_ranked_is_in_order(s.drop_last());
        lemma_inserted(ranked(s.drop_last()), s.last());
        vstd::seq_lib::to_multiset_build(s.drop_last(), s.last());
        assert(s.drop_last().push(s.last()) =~= s);
    } else {
        assert(ranked(s) =~= s);
    }
}

proof fn lemma_inserted<T: Ranked>(s: Seq<T>, e: T)
    requires
        is_order::<T>(),
        in_rank_order(s),
    ensures
        in_rank_order(inserted(s, e)),
        inserted(s, e).to_multiset() == s.to_multiset().insert(e),
        forall|j: int|
            0 <= j < inserted(s, e).len() ==> s.contains(#[trigger] inserted(s, e)[j])
                || inserted(s, e)[j] == e,
    decreases s.len(),
{
    let t = inserted(s, e);
    if s.len() > 0 && e.before(s.last()) {
        let rest = s.drop_last();
        let last = s.last();
        assert forall|i: int, j: int| 0 <= i < j < rest.len() implies !(#[trigger] rest[j]).before(
            #[trigger] rest[i],
        ) by {
            assert(rest[i] == s[i] && rest[j] == s[j]);
        }
        lemma_inserted(rest, e);
        let u = inserted(rest, e);
        assert forall|i: int, j: int| 0 <= i < j < t.len() implies !(#[trigger] t[j]).before(
            #[trigger] t[i],
        ) by {
            assert(t[i] == u[i]);
            if j < u.len() {
                assert(t[j] == u[j]);
            } else if u[i] != e {
                let m = choose|m: int| 0 <= m < rest.len() && rest[m] == u[i];
                assert(s[m] == u[i]);
                assert(s[s.len() - 1] == last);
            }
        }
        assert forall|j: int| 0 <= j < t.len() implies s.contains(#[trigger] t[j]) || t[j] == e by {
            if j < u.len() {
                assert(t[j] == u[j]);
                if u[j] != e {
                    let m = choose|m: int| 0 <= m < rest.len() && rest[m] == u[j];
                    assert(s[m] == u[j]);
                }
            } else {
                assert(s[s.len() - 1] == last);
            }
        }
        vstd::seq_lib::to_multiset_build(u, last);
        vstd::seq_lib::to_multiset_build(rest, last);
        assert(rest.push(last) =~= s);
        assert(rest.to_multiset().insert(e).insert(last) =~= rest.to_multiset().insert(last).insert(
            e,
        ));
    } else {
        vstd::seq_lib::to_multiset_build(s, e);
        assert forall|i: int, j: int| 0 <= i < j < t.len() implies !(#[trigger] t[j]).before(
            #[trigger] t[i],
        ) by {
            assert(t[i] == s[i]);
            if j < s.len() {
                assert(t[j] == s[j]);
            } else if i < s.len() - 1 {
                let last = s[s.len() - 1];
                assert(!e.before(last));
                assert(!last.before(s[i]));
            }
        }
        assert forall|j: int| 0 <= j < t.len() implies s.contains(#[trigger] t[j]) || t[j] == e by {
            if j < s.len() {
                assert(s[j] == t[j]);
            }
        }
    }
}

/// A value that comes before none of those put in order already stands behind them all: values
/// that are alike keep the order in which they came.
pub proof fn law_alike_keep_their_order<T: Ranked>(s: Seq<T>, e: T)
    requires
        forall|i: int| 0 <= i < ranked(s).len() ==> !e.before(#[trigger] ranked(s)[i]),
    ensures
        ranked(s.push(e)) == ranked(s).push(e),
{
    assert(s.push(e).drop_last() == s);
    let order = ranked(s);
    if order.len() > 0 {
        assert(!e.before(order[order.len() - 1]));
    }
}

} // verus!
