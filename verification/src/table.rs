//! A small keyed table: a list of entries in which no key occurs twice.
//!
//! Contracts speak of the list of entries, keys and values taken by their views, in the order in
//! which the keys were first put in.

use vstd::prelude::*;

verus! {

/// A key whose equality is that of its view.
pub trait TableKey: View + Sized {
    /// Whether two keys are one.
    fn same_key(&self, other: &Self) -> (r: bool)
        ensures
            r == (self@ == other@),
    ;
}

/// Whether an entry list has a key.
pub open spec fn holds_key<A, V>(s: Seq<(A, V)>, k: A) -> bool {
    exists|i: int| 0 <= i < s.len() && (#[trigger] s[i]).0 == k
}

/// Where a key stands.
pub open spec fn place<A, V>(s: Seq<(A, V)>, k: A) -> int {
    choose|i: int| 0 <= i < s.len() && (#[trigger] s[i]).0 == k
}

/// Whether no key occurs twice.
pub open spec fn unique_keys<A, V>(s: Seq<(A, V)>) -> bool {
    forall|i: int, j: int|
        0 <= i < s.len() && 0 <= j < s.len() && (#[trigger] s[i]).0 == (#[trigger] s[j]).0 ==> i == j
}

/// The value under a key.
pub open spec fn lookup<A, V>(s: Seq<(A, V)>, k: A) -> Option<V> {
    if holds_key(s, k) {
        Some(s[place(s, k)].1)
    } else {
        None
    }
}

/// The entries with a value put under a key: in the key's place, or at the end.
pub open spec fn put<A, V>(s: Seq<(A, V)>, k: A, v: V) -> Seq<(A, V)> {
    if holds_key(s, k) {
        s.update(place(s, k), (k, v))
    } else {
        s.push((k, v))
    }
}

/// The entries without a key.
pub open spec fn cut<A, V>(s: Seq<(A, V)>, k: A) -> Seq<(A, V)> {
    if holds_key(s, k) {
        s.remove(place(s, k))
    } else {
        s
    }
}

/// A key's place is where it occurs.
pub proof fn lemma_place<A, V>(s: Seq<(A, V)>, k: A, i: int)
    requires
        unique_keys(s),
        0 <= i < s.len(),
        s[i].0 == k,
    ensures
        holds_key(s, k),
        place(s, k) == i,
        lookup(s, k) == Some(s[i].1),
{
    let p = place(s, k);
    assert(s[p].0 == k);
}

/// Putting a value under a key keeps keys unique, is what a lookup of that key then finds, and
/// changes no other key.
pub proof fn lemma_put<A, V>(s: Seq<(A, V)>, k: A, v: V)
    requires
        unique_keys(s),
    ensures
        unique_keys(put(s, k, v)),
        lookup(put(s, k, v), k) == Some(v),
        forall|other: A| other != k ==> lookup(put(s, k, v), other) == #[trigger] lookup(s, other),
        forall|other: A|
            #[trigger] holds_key(put(s, k, v), other) <==> holds_key(s, other) || other == k,
{
    let t = put(s, k, v);
    let at = if holds_key(s, k) {
        place(s, k)
    } else {
        s.len() as int
    };
    assert(t[at] == (k, v));
    assert forall|i: int, j: int|
        0 <= i < t.len() && 0 <= j < t.len() && (#[trigger] t[i]).0 == (#[trigger] t[j]).0 implies i
        == j by {
        if i < s.len() && j < s.len() {
            assert(s[i].0 == s[j].0);
        } else if i < s.len() {
            assert(s[i].0 == k);
        } else if j < s.len() {
            assert(s[j].0 == k);
        }
    }
    lemma_place(t, k, at);
    assert forall|other: A| #[trigger] holds_key(t, other) <==> holds_key(s, other) || other == k by {
        if holds_key(s, other) && other != k {
            let i = place(s, other);
            assert(t[i].0 == other);
        }
        if holds_key(t, other) && other != k {
            let i = place(t, other);
            assert(s[i].0 == other);
        }
    }
    assert forall|other: A| other != k implies lookup(t, other) == #[trigger] lookup(s, other) by {
        assert(holds_key(t, other) <==> holds_key(s, other));
        if holds_key(s, other) {
            let i = place(s, other);
            assert(t[i] == s[i]);
            lemma_place(t, other, i);
        }
    }
}

/// Taking a key out keeps keys unique, leaves nothing under it, and changes no other key.
pub proof fn lemma_cut<A, V>(s: Seq<(A, V)>, k: A)
    requires
        unique_keys(s),
    ensures
        unique_keys(cut(s, k)),
        lookup(cut(s, k), k) is None,
        forall|other: A| other != k ==> lookup(cut(s, k), other) == #[trigger] lookup(s, other),
{
    let t = cut(s, k);
    if holds_key(s, k) {
        let p = place(s, k);
        assert forall|i: int| 0 <= i < t.len() implies #[trigger] t[i] == s[if i < p {
            i
        } else {
            i + 1
        }] by {}
        assert forall|i: int, j: int|
            0 <= i < t.len() && 0 <= j < t.len() && (#[trigger] t[i]).0 == (#[trigger] t[j]).0 implies i
            == j by {}
        assert(!holds_key(t, k)) by {
            if holds_key(t, k) {
                let i = place(t, k);
                assert(t[i].0 == k);
                let j = if i < p {
                    i
                } else {
                    i + 1
                };
                assert(s[j].0 == s[p].0);
            }
        }
        assert forall|other: A| other != k implies lookup(t, other) == #[trigger] lookup(s, other) by {
            if holds_key(s, other) {
                let i = place(s, other);
                assert(s[i].0 == other);
                let j = if i < p {
                    i
                } else {
                    i - 1
                };
                assert(t[j] == s[i]);
                lemma_place(t, other, j);
            }
            if holds_key(t, other) {
                let i = place(t, other);
                assert(t[i].0 == other);
                assert(s[if i < p {
                    i
                } else {
                    i + 1
                }].0 == other);
            }
        }
    }
}

/// Changing a value keeps keys unique, and is putting it under its key.
pub proof fn lemma_change<A, V>(s: Seq<(A, V)>, i: int, v: V)
    requires
        unique_keys(s),
        0 <= i < s.len(),
    ensures
        unique_keys(s.update(i, (s[i].0, v))),
        s.update(i, (s[i].0, v)) == put(s, s[i].0, v),
{
    lemma_place(s, s[i].0, i);
    lemma_put(s, s[i].0, v);
}

/// A number of each entry, added up.
pub open spec fn sum_by<A>(s: Seq<A>, what: spec_fn(A) -> int) -> int
    decreases s.len(),
{
    if s.len() == 0 {
        0
    } else {
        sum_by(s.drop_last(), what) + what(s.last())
    }
}

/// Taking an entry out takes its number off the sum.
pub proof fn lemma_sum_remove<A>(s: Seq<A>, i: int, what: spec_fn(A) -> int)
    requires
        0 <= i < s.len(),
    ensures
        sum_by(s.remove(i), what) == sum_by(s, what) - what(s[i]),
    decreases s.len(),
{
    let t = s.remove(i);
    if i == s.len() - 1 {
        assert(t =~= s.drop_last());
    } else {
        lemma_sum_remove(s.drop_last(), i, what);
        assert(t.drop_last() =~= s.drop_last().remove(i));
        assert(t.last() == s.last());
    }
}

/// Changing an entry changes the sum by the difference of its numbers.
pub proof fn lemma_sum_update<A>(s: Seq<A>, i: int, x: A, what: spec_fn(A) -> int)
    requires
        0 <= i < s.len(),
    ensures
        sum_by(s.update(i, x), what) == sum_by(s, what) - what(s[i]) + what(x),
    decreases s.len(),
{
    let t = s.update(i, x);
    if i == s.len() - 1 {
        assert(t.drop_last() =~= s.drop_last());
    } else {
        lemma_sum_update(s.drop_last(), i, x, what);
        assert(t.drop_last() =~= s.drop_last().update(i, x));
        assert(t.last() == s.last());
    }
}

/// A new entry adds its number to the sum.
pub proof fn lemma_sum_push<A>(s: Seq<A>, x: A, what: spec_fn(A) -> int)
    ensures
        sum_by(s.push(x), what) == sum_by(s, what) + what(x),
{
    assert(s.push(x).drop_last() =~= s);
}

/// The entries whose keys are among some.
pub open spec fn kept<A, V>(s: Seq<(A, V)>, keep: Seq<A>) -> Seq<(A, V)>
    decreases s.len(),
{
    if s.len() == 0 {
        Seq::empty()
    } else if keep.contains(s.last().0) {
        kept(s.drop_last(), keep).push(s.last())
    } else {
        kept(s.drop_last(), keep)
    }
}

/// Every entry that is kept has a key that is to be kept.
pub proof fn lemma_kept<A, V>(s: Seq<(A, V)>, keep: Seq<A>)
    ensures
        forall|i: int| 0 <= i < kept(s, keep).len() ==> keep.contains((#[trigger] kept(s, keep)[i]).0),
        forall|k: A| !keep.contains(k) ==> #[trigger] lookup(kept(s, keep), k) is None,
    decreases s.len(),
{
    if s.len() > 0 {
        lemma_kept(s.drop_last(), keep);
    }
}

/// A list of entries in which no key occurs twice.
#[derive(Clone, Debug)]
pub struct Table<K, V> {
    entries: Vec<(K, V)>,
}

impl<K: TableKey, V: View> View for Table<K, V> {
    type V = Seq<(K::V, V::V)>;

    closed spec fn view(&self) -> Seq<(K::V, V::V)> {
        self.entries@.map_values(|e: (K, V)| (e.0@, e.1@))
    }
}

impl<K: TableKey, V: View> Table<K, V> {
    /// Whether no key occurs twice.
    pub open spec fn wf(&self) -> bool {
        unique_keys(self@)
    }

    /// An empty table.
    pub fn new() -> (r: Self)
        ensures
            r.wf(),
            r@ == Seq::<(K::V, V::V)>::empty(),
    {
        let r = Table { entries: Vec::new() };
        assert(r@ =~= Seq::empty());
        r
    }

    /// The number of entries.
    pub fn len(&self) -> (r: usize)
        ensures
            r == self@.len(),
    {
        self.entries.len()
    }

    /// Whether there is no entry.
    pub fn is_empty(&self) -> (r: bool)
        ensures
            r == (self@.len() == 0),
    {
        self.entries.len() == 0
    }

    /// Where a key stands, if it does.
    pub fn find(&self, key: &K) -> (r: Option<usize>)
        requires
            self.wf(),
        ensures
            match r {
                Some(i) => i < self@.len() && holds_key(self@, key@) && i == place(self@, key@)
                    && self@[i as int].0 == key@,
                None => !holds_key(self@, key@),
            },
    {
        let mut i: usize = 0;
        while i < self.entries.len()
            invariant
                i <= self.entries.len(),
                self.wf(),
                self@.len() == self.entries@.len(),
                forall|j: int| 0 <= j < i ==> (#[trigger] self@[j]).0 != key@,
            decreases self.entries.len() - i,
        {
            assert(self@[i as int].0 == self.entries@[i as int].0@);
            if self.entries[i].0.same_key(key) {
                proof {
                    lemma_place(self@, key@, i as int);
                }
                return Some(i);
            }
            i = i + 1;
        }
        None
    }

    /// Whether a key has an entry.
    pub fn contains(&self, key: &K) -> (r: bool)
        requires
            self.wf(),
        ensures
            r == holds_key(self@, key@),
    {
        self.find(key).is_some()
    }

    /// The value under a key.
    pub fn get(&self, key: &K) -> (r: Option<&V>)
        requires
            self.wf(),
        ensures
            match r {
                Some(v) => lookup(self@, key@) == Some(v@),
                None => lookup(self@, key@) is None,
            },
    {
        match self.find(key) {
            Some(i) => Some(&self.entries[i].1),
            None => None,
        }
    }

    /// The key at a place.
    pub fn key_at(&self, i: usize) -> (r: &K)
        requires
            i < self@.len(),
        ensures
            r@ == self@[i as int].0,
    {
        &self.entries[i].0
    }

    /// The value at a place.
    pub fn value_at(&self, i: usize) -> (r: &V)
        requires
            i < self@.len(),
        ensures
            r@ == self@[i as int].1,
    {
        &self.entries[i].1
    }

    /// The value at a place, to be changed.
    pub fn value_mut(&mut self, i: usize) -> (r: &mut V)
        requires
            old(self).wf(),
            i < old(self)@.len(),
        ensures
            r@ == old(self)@[i as int].1,
            final(self)@ == old(self)@.update(i as int, (old(self)@[i as int].0, final(r)@)),
            final(self).wf(),
    {
        let ghost before = self@;
        proof {
            assert forall|v: V::V| unique_keys(
                #[trigger] before.update(i as int, (before[i as int].0, v)),
            ) by {
                lemma_change(before, i as int, v);
            }
        }
        &mut self.entries[i].1
    }

    /// Puts a value under a key.
    pub fn insert(&mut self, key: K, value: V)
        requires
            old(self).wf(),
        ensures
            final(self).wf(),
            final(self)@ == put(old(self)@, key@, value@),
    {
        proof {
            lemma_put(self@, key@, value@);
        }
        match self.find(&key) {
            Some(i) => {
                let ghost before = self@;
                self.entries[i] = (key, value);
                assert(self@ =~= put(before, key@, value@));
            },
            None => {
                let ghost before = self@;
                self.entries.push((key, value));
                assert(self@ =~= put(before, key@, value@));
            },
        }
    }

    /// Takes a key out and returns its value.
    pub fn remove(&mut self, key: &K) -> (r: Option<V>)
        requires
            old(self).wf(),
        ensures
            final(self).wf(),
            final(self)@ == cut(old(self)@, key@),
            match r {
                Some(v) => lookup(old(self)@, key@) == Some(v@),
                None => lookup(old(self)@, key@) is None,
            },
    {
        proof {
            lemma_cut(self@, key@);
        }
        match self.find(key) {
            Some(i) => {
                let ghost before = self@;
                let e = self.entries.remove(i);
                assert(self@ =~= cut(before, key@));
                Some(e.1)
            },
            None => None,
        }
    }

    /// Takes the entry at a place out.
    pub fn remove_at(&mut self, i: usize) -> (r: (K, V))
        requires
            old(self).wf(),
            i < old(self)@.len(),
        ensures
            final(self).wf(),
            final(self)@ == old(self)@.remove(i as int),
            r.0@ == old(self)@[i as int].0,
            r.1@ == old(self)@[i as int].1,
    {
        proof {
            lemma_place(self@, self@[i as int].0, i as int);
            lemma_cut(self@, self@[i as int].0);
        }
        let ghost before = self@;
        let e = self.entries.remove(i);
        assert(self@ =~= before.remove(i as int));
        e
    }

    /// Takes every entry out whose key is not among some.
    pub fn retain_keys(&mut self, keep: &Vec<K>)
        requires
            old(self).wf(),
        ensures
            final(self).wf(),
            final(self)@ == kept(old(self)@, keep@.map_values(|k: K| k@)),
    {
        let ghost all = self@;
        let ghost keys = keep@.map_values(|k: K| k@);
        let ghost mut tail: Seq<(K::V, V::V)> = Seq::empty();
        let mut i: usize = self.len();
        assert(all.subrange(0, i as int) =~= all);
        assert(self@ =~= all.subrange(0, i as int) + tail);
        assert(kept(all, keys) =~= kept(all.subrange(0, i as int), keys) + tail);
        while i > 0
            invariant
                self.wf(),
                i <= all.len(),
                keys == keep@.map_values(|k: K| k@),
                self@ == all.subrange(0, i as int) + tail,
                kept(all, keys) == kept(all.subrange(0, i as int), keys) + tail,
            decreases i,
        {
            let ghost part = all.subrange(0, i as int);
            let ghost entry = all[i - 1];
            i = i - 1;
            proof {
                assert(part.last() == entry);
                assert(part.drop_last() =~= all.subrange(0, i as int));
                assert(self@[i as int] == entry);
            }
            let mut found = false;
            let mut j: usize = 0;
            while j < keep.len()
                invariant
                    self.wf(),
                    i < self@.len(),
                    self@[i as int] == entry,
                    j <= keep@.len(),
                    keys == keep@.map_values(|k: K| k@),
                    found == exists|k: int| 0 <= k < j && #[trigger] keys[k] == entry.0,
                decreases keep.len() - j,
            {
                assert(keys[j as int] == keep@[j as int]@);
                if self.key_at(i).same_key(&keep[j]) {
                    found = true;
                }
                j = j + 1;
            }
            assert(found == keys.contains(entry.0));
            if found {
                proof {
                    let more = seq![entry] + tail;
                    assert(self@ =~= all.subrange(0, i as int) + more);
                    assert(kept(all, keys) =~= kept(all.subrange(0, i as int), keys) + more);
                    tail = more;
                }
            } else {
                let ghost before = self@;
                let _ = self.remove_at(i);
                assert(self@ =~= all.subrange(0, i as int) + tail);
            }
        }
        assert(all.subrange(0, 0) =~= Seq::empty());
        assert(self@ =~= kept(all, keys));
    }

    /// Takes every entry out.
    pub fn clear(&mut self)
        ensures
            final(self).wf(),
            final(self)@ == Seq::<(K::V, V::V)>::empty(),
    {
        self.entries.clear();
        assert(self@ =~= Seq::empty());
    }
}

/// An entry whose key is to be kept is found as it was.
pub proof fn law_kept_entries_are_found<A, V>(s: Seq<(A, V)>, keep: Seq<A>, k: A)
    requires
        unique_keys(s),
        keep.contains(k),
    ensures
        kept(s, keep) == s.filter(|e: (A, V)| keep.contains(e.0)),
        lookup(kept(s, keep), k) == lookup(s, k),
{
    lemma_kept_is_the_filter(s, keep);
    lemma_kept_is_found(s, keep, k);
}

proof fn lemma_kept_is_the_filter<A, V>(s: Seq<(A, V)>, keep: Seq<A>)
    ensures
        kept(s, keep) == s.filter(|e: (A, V)| keep.contains(e.0)),
    decreases s.len(),
{
    reveal(Seq::filter);
    if s.len() > 0 {
        lemma_kept_is_the_filter(s.drop_last(), keep);
    }
}

proof fn lemma_kept_is_found<A, V>(s: Seq<(A, V)>, keep: Seq<A>, k: A)
    requires
        unique_keys(s),
        keep.contains(k),
    ensures
        unique_keys(kept(s, keep)),
        lookup(kept(s, keep), k) == lookup(s, k),
        forall|i: int|
            0 <= i < kept(s, keep).len() ==> exists|j: int|
                0 <= j < s.len() && #[trigger] s[j] == (#[trigger] kept(s, keep)[i]),
    decreases s.len(),
{
    if s.len() > 0 {
        let rest = s.drop_last();
        assert(forall|j: int| 0 <= j < rest.len() ==> #[trigger] rest[j] == s[j]);
        assert(unique_keys(rest));
        lemma_kept_is_found(rest, keep, k);
        let before = kept(rest, keep);
        let all = kept(s, keep);
        let last = s.last();
        assert(last == s[s.len() - 1]);
        assert forall|i: int| 0 <= i < all.len() implies exists|j: int|
            0 <= j < s.len() && #[trigger] s[j] == (#[trigger] all[i]) by {
            if i < before.len() {
                let j = choose|j: int| 0 <= j < rest.len() && #[trigger] rest[j] == before[i];
                assert(s[j] == all[i]);
            } else {
                assert(s[s.len() - 1] == all[i]);
            }
        }
        assert forall|i: int| 0 <= i < before.len() implies (#[trigger] before[i]).0 != last.0 by {
            let j = choose|j: int| 0 <= j < rest.len() && #[trigger] rest[j] == before[i];
            assert(s[j].0 == before[i].0);
        }
        assert(!holds_key(before, last.0));
        assert(!holds_key(rest, last.0));
        if keep.contains(last.0) {
            assert(all == put(before, last.0, last.1));
            lemma_put(before, last.0, last.1);
            assert(lookup(before, k) == lookup(before, k));
        }
        assert(s == put(rest, last.0, last.1));
        lemma_put(rest, last.0, last.1);
        assert(lookup(rest, k) == lookup(rest, k));
    }
}

} // verus!
