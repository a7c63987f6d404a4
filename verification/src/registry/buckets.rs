//! Key-to-list multimaps backing a registry: one entry per key, each
//! holding the non-empty list of items filed under that key. Keys are
//! compared through their views, so no two entries share a key.
use vstd::prelude::*;

use crate::registry::key::RegistryKey;

verus! {

/// Items that can be told apart by value (node ids, subscription ids).
pub trait BucketItem: Copy {
    fn same_item(&self, other: &Self) -> (b: bool)
        ensures
            b == (*self == *other),
    ;
}

/// The list filed under `k` in an entry sequence (empty when `k` has no
/// entry). With distinct keys this is the list of the one matching entry.
pub open spec fn bucket_of<V, T>(ents: Seq<(V, Seq<T>)>, k: V) -> Seq<T>
    decreases ents.len(),
{
    if ents.len() == 0 {
        Seq::empty()
    } else if ents.last().0 == k {
        ents.last().1
    } else {
        bucket_of(ents.drop_last(), k)
    }
}

/// No two entries share a key, and no entry is empty.
pub open spec fn entries_wf<V, T>(ents: Seq<(V, Seq<T>)>) -> bool {
    &&& forall|i: int, j: int| 0 <= i < j < ents.len() ==> ents[i].0 != ents[j].0
    &&& forall|i: int| 0 <= i < ents.len() ==> ents[i].1.len() > 0
}

/// The index of the first occurrence of `x` in `s`, if any.
pub open spec fn first_index<T>(s: Seq<T>, x: T) -> int
    decreases s.len(),
{
    if s.len() == 0 {
        -1
    } else if s[0] == x {
        0
    } else {
        let r = first_index(s.subrange(1, s.len() as int), x);
        if r < 0 {
            -1
        } else {
            r + 1
        }
    }
}

/// `s` with the first occurrence of `x` removed, the rest keeping their
/// order (unchanged when `x` does not occur).
pub open spec fn remove_first_of<T>(s: Seq<T>, x: T) -> Seq<T> {
    let i = first_index(s, x);
    if i < 0 {
        s
    } else {
        s.remove(i)
    }
}

/// The predicate "is not `t`", for filtering `t` out of a list.
pub open spec fn other_than<T>(t: T) -> spec_fn(T) -> bool {
    |x: T| x != t
}

/// Number of occurrences of `x` in `s`.
pub open spec fn occurrences<T>(s: Seq<T>, x: T) -> nat
    decreases s.len(),
{
    if s.len() == 0 {
        0
    } else {
        occurrences(s.drop_last(), x) + if s.last() == x {
            1nat
        } else {
            0nat
        }
    }
}

pub proof fn lemma_first_index<T>(s: Seq<T>, x: T)
    ensures
        -1 <= first_index(s, x) < s.len(),
        first_index(s, x) >= 0 ==> s[first_index(s, x)] == x,
        first_index(s, x) >= 0 ==> forall|j: int| 0 <= j < first_index(s, x) ==> s[j] != x,
        first_index(s, x) < 0 <==> !s.contains(x),
    decreases s.len(),
{
    if s.len() > 0 {
        let t = s.subrange(1, s.len() as int);
        lemma_first_index(t, x);
        if s[0] != x {
            if first_index(t, x) < 0 {
                assert forall|j: int| 0 <= j < s.len() implies s[j] != x by {
                    if j > 0 {
                        assert(t[j - 1] == s[j]);
                    }
                }
            } else {
                assert(s.contains(x)) by {
                    assert(s[first_index(t, x) + 1] == t[first_index(t, x)]);
                }
                assert forall|j: int| 0 <= j < first_index(s, x) implies s[j] != x by {
                    if j > 0 {
                        assert(t[j - 1] == s[j]);
                    }
                }
            }
        }
    }
}

pub proof fn lemma_occurrences_push<T>(s: Seq<T>, x: T, y: T)
    ensures
        occurrences(s.push(y), x) == occurrences(s, x) + if y == x {
            1nat
        } else {
            0nat
        },
{
    assert(s.push(y).drop_last() =~= s);
}

pub proof fn lemma_occurrences_contains<T>(s: Seq<T>, x: T)
    ensures
        occurrences(s, x) > 0 <==> s.contains(x),
    decreases s.len(),
{
    if s.len() > 0 {
        lemma_occurrences_contains(s.drop_last(), x);
        if s.drop_last().contains(x) {
            let j = choose|j: int| 0 <= j < s.len() - 1 && s.drop_last()[j] == x;
            assert(s[j] == x);
        }
        if s.contains(x) && s.last() != x {
            let j = choose|j: int| 0 <= j < s.len() && s[j] == x;
            assert(s.drop_last()[j] == x);
        }
    }
}

/// Occurrences in `s.update(i, v)`: one `s[i]` less, one `v` more.
pub proof fn lemma_occurrences_update<T>(s: Seq<T>, i: int, v: T, x: T)
    requires
        0 <= i < s.len(),
    ensures
        occurrences(s.update(i, v), x) + (if s[i] == x {
            1nat
        } else {
            0nat
        }) == occurrences(s, x) + (if v == x {
            1nat
        } else {
            0nat
        }),
    decreases s.len(),
{
    if i < s.len() - 1 {
        lemma_occurrences_update(s.drop_last(), i, v, x);
        assert(s.update(i, v).drop_last() =~= s.drop_last().update(i, v));
    } else {
        assert(s.update(i, v).drop_last() =~= s.drop_last());
    }
}

/// Removing the item at `i` lowers its count by one and leaves every
/// other count alone.
pub proof fn lemma_occurrences_remove<T>(s: Seq<T>, i: int, y: T)
    requires
        0 <= i < s.len(),
    ensures
        occurrences(s.remove(i), y) + (if s[i] == y {
            1nat
        } else {
            0nat
        }) == occurrences(s, y),
    decreases s.len(),
{
    if i == s.len() - 1 {
        assert(s.remove(i) =~= s.drop_last());
    } else {
        lemma_occurrences_remove(s.drop_last(), i, y);
        assert(s.remove(i).drop_last() =~= s.drop_last().remove(i));
        assert(s.remove(i).last() == s.last());
    }
}

/// Removing the first occurrence of a present item lowers its count by one
/// and leaves every other count alone.
pub proof fn lemma_occurrences_remove_first<T>(s: Seq<T>, x: T, y: T)
    requires
        s.contains(x),
    ensures
        occurrences(remove_first_of(s, x), y) + (if x == y {
            1nat
        } else {
            0nat
        }) == occurrences(s, y),
        remove_first_of(s, x).len() + 1 == s.len(),
{
    lemma_first_index(s, x);
    lemma_occurrences_remove(s, first_index(s, x), y);
}

pub proof fn lemma_bucket_of<V, T>(ents: Seq<(V, Seq<T>)>, k: V)
    requires
        entries_wf(ents),
    ensures
        forall|i: int| 0 <= i < ents.len() && ents[i].0 == k ==> bucket_of(ents, k) == ents[i].1,
        (forall|i: int| 0 <= i < ents.len() ==> ents[i].0 != k) ==> bucket_of(ents, k) == Seq::<
            T,
        >::empty(),
    decreases ents.len(),
{
    if ents.len() > 0 {
        lemma_bucket_of(ents.drop_last(), k);
        assert forall|i: int| 0 <= i < ents.len() && ents[i].0 == k implies bucket_of(ents, k)
            == ents[i].1 by {
            if i < ents.len() - 1 {
                assert(ents.drop_last()[i] == ents[i]);
            }
        }
        if forall|i: int| 0 <= i < ents.len() ==> ents[i].0 != k {
            assert forall|i: int| 0 <= i < ents.drop_last().len() implies ents.drop_last()[i].0
                != k by {
                assert(ents.drop_last()[i] == ents[i]);
            }
        }
    }
}

/// Pushing `t` under `q` (into `q`'s entry, or a new last entry) extends
/// `q`'s list by `t` and leaves every other list alone.
pub proof fn lemma_push_bucket_of<V, T>(
    old_ents: Seq<(V, Seq<T>)>,
    ents: Seq<(V, Seq<T>)>,
    q: V,
    t: T,
    k: V,
)
    requires
        entries_wf(old_ents),
        entries_wf(ents),
        ents == (if exists|i: int| 0 <= i < old_ents.len() && old_ents[i].0 == q {
            let i = choose|i: int| 0 <= i < old_ents.len() && old_ents[i].0 == q;
            old_ents.update(i, (q, old_ents[i].1.push(t)))
        } else {
            old_ents.push((q, seq![t]))
        }),
    ensures
        bucket_of(ents, k) == if k == q {
            bucket_of(old_ents, k).push(t)
        } else {
            bucket_of(old_ents, k)
        },
{
    lemma_bucket_of(old_ents, k);
    lemma_bucket_of(ents, k);
    if exists|i: int| 0 <= i < old_ents.len() && old_ents[i].0 == q {
        let i = choose|i: int| 0 <= i < old_ents.len() && old_ents[i].0 == q;
        if exists|j: int| 0 <= j < old_ents.len() && old_ents[j].0 == k {
            let j = choose|j: int| 0 <= j < old_ents.len() && old_ents[j].0 == k;
            assert(ents[j].0 == k);
        } else {
            assert forall|j: int| 0 <= j < ents.len() implies ents[j].0 != k by {
                if j != i {
                    assert(ents[j] == old_ents[j]);
                }
            }
        }
    } else {
        if exists|j: int| 0 <= j < old_ents.len() && old_ents[j].0 == k {
            let j = choose|j: int| 0 <= j < old_ents.len() && old_ents[j].0 == k;
            assert(ents[j] == old_ents[j]);
        } else if k == q {
            assert(ents[old_ents.len() as int].0 == k);
            assert(Seq::<T>::empty().push(t) =~= seq![t]);
        } else {
            assert forall|j: int| 0 <= j < ents.len() implies ents[j].0 != k by {
                if j < old_ents.len() {
                    assert(ents[j] == old_ents[j]);
                }
            }
        }
    }
}

/// Replacing entry `i`'s list by `rest` (dropping the entry when `rest` is
/// empty) changes the list of that entry's key and no other.
pub proof fn lemma_replace_bucket_of<V, T>(
    old_ents: Seq<(V, Seq<T>)>,
    ents: Seq<(V, Seq<T>)>,
    i: int,
    rest: Seq<T>,
)
    requires
        entries_wf(old_ents),
        0 <= i < old_ents.len(),
        ents == (if rest.len() == 0 {
            old_ents.remove(i)
        } else {
            old_ents.update(i, (old_ents[i].0, rest))
        }),
    ensures
        entries_wf(ents),
        forall|k: V|
            #![trigger bucket_of(ents, k)]
            bucket_of(ents, k) == if k == old_ents[i].0 {
                rest
            } else {
                bucket_of(old_ents, k)
            },
{
    let q = old_ents[i].0;
    assert(entries_wf(ents)) by {
        assert forall|a: int, b: int| 0 <= a < b < ents.len() implies ents[a].0 != ents[b].0 by {
            if rest.len() == 0 {
                let a0 = if a < i { a } else { a + 1 };
                let b0 = if b < i { b } else { b + 1 };
                assert(ents[a] == old_ents[a0]);
                assert(ents[b] == old_ents[b0]);
            }
        }
    }
    assert forall|k: V| #![trigger bucket_of(ents, k)] bucket_of(ents, k) == if k == q {
        rest
    } else {
        bucket_of(old_ents, k)
    } by {
        lemma_bucket_of(ents, k);
        lemma_bucket_of(old_ents, k);
        if k == q {
            if rest.len() == 0 {
                assert forall|j: int| 0 <= j < ents.len() implies ents[j].0 != k by {
                    let j0 = if j < i { j } else { j + 1 };
                    assert(ents[j] == old_ents[j0]);
                }
                assert(rest =~= Seq::<T>::empty());
            } else {
                assert(ents[i].0 == k);
            }
        } else {
            if exists|j: int| 0 <= j < old_ents.len() && old_ents[j].0 == k {
                let j = choose|j: int| 0 <= j < old_ents.len() && old_ents[j].0 == k;
                if rest.len() == 0 {
                    let j1 = if j < i { j } else { j - 1 };
                    assert(ents[j1] == old_ents[j]);
                } else {
                    assert(ents[j] == old_ents[j]);
                }
            } else {
                assert forall|j: int| 0 <= j < ents.len() implies ents[j].0 != k by {
                    if rest.len() == 0 {
                        let j0 = if j < i { j } else { j + 1 };
                        assert(ents[j] == old_ents[j0]);
                    } else if j != i {
                        assert(ents[j] == old_ents[j]);
                    }
                }
            }
        }
    }
}

/// A key-to-list multimap: distinct keys, non-empty lists, entries kept
/// in the order their keys first arrived.
pub struct Buckets<Q, T> {
    entries: Vec<(Q, Vec<T>)>,
}

impl<Q: RegistryKey, T: BucketItem> Buckets<Q, T> {
    /// The entries, each key and list taken by its view.
    pub closed spec fn ents(&self) -> Seq<(Q::V, Seq<T>)> {
        self.entries@.map_values(|e: (Q, Vec<T>)| (e.0@, e.1@))
    }

    pub open spec fn wf(&self) -> bool {
        entries_wf(self.ents())
    }

    /// The list filed under `k`.
    pub open spec fn get_spec(&self, k: Q::V) -> Seq<T> {
        bucket_of(self.ents(), k)
    }

    pub fn new() -> (b: Self)
        ensures
            b.wf(),
            b.ents() == Seq::<(Q::V, Seq<T>)>::empty(),
    {
        let b = Buckets { entries: Vec::new() };
        assert(b.ents() =~= Seq::<(Q::V, Seq<T>)>::empty());
        b
    }

    fn position(&self, q: &Q) -> (r: Option<usize>)
        ensures
            match r {
                Some(i) => i < self.ents().len() && self.ents()[i as int].0 == q@,
                None => forall|i: int| 0 <= i < self.ents().len() ==> self.ents()[i].0 != q@,
            },
    {
        let mut i: usize = 0;
        while i < self.entries.len()
            invariant
                i <= self.entries.len(),
                self.ents().len() == self.entries@.len(),
                forall|j: int| 0 <= j < i ==> self.ents()[j].0 != q@,
            decreases self.entries.len() - i,
        {
            if self.entries[i].0.same_key(q) {
                return Some(i);
            }
            i += 1;
        }
        None
    }

    /// A copy of the list filed under `q` (empty when there is none).
    pub fn get(&self, q: &Q) -> (r: Vec<T>)
        requires
            self.wf(),
        ensures
            r@ == self.get_spec(q@),
    {
        proof {
            lemma_bucket_of(self.ents(), q@);
        }
        match self.position(q) {
            Some(i) => copy_items(&self.entries[i].1),
            None => Vec::new(),
        }
    }

    /// Files `t` at the end of `q`'s list, opening an entry for `q` at the
    /// end when it has none.
    pub fn push(&mut self, q: Q, t: T)
        requires
            old(self).wf(),
        ensures
            final(self).wf(),
            final(self).ents() == (if exists|i: int|
                0 <= i < old(self).ents().len() && old(self).ents()[i].0 == q@ {
                let i = choose|i: int| 0 <= i < old(self).ents().len() && old(self).ents()[i].0 == q@;
                old(self).ents().update(i, (q@, old(self).ents()[i].1.push(t)))
            } else {
                old(self).ents().push((q@, seq![t]))
            }),
    {
        let ghost old_ents = self.ents();
        match self.position(&q) {
            Some(i) => {
                let (k, mut items) = self.entries.remove(i);
                items.push(t);
                self.entries.insert(i, (k, items));
                proof {
                    let j = choose|j: int| 0 <= j < old_ents.len() && old_ents[j].0 == q@;
                    assert(j == i as int);
                    assert(self.ents() =~= old_ents.update(i as int, (q@, old_ents[i as int].1.push(t))));
                }
            },
            None => {
                let mut items: Vec<T> = Vec::new();
                items.push(t);
                self.entries.push((q, items));
                proof {
                    assert(self.ents() =~= old_ents.push((q@, seq![t])));
                }
            },
        }
    }

    /// Removes the first occurrence of `t` from `q`'s list, keeping the
    /// order of the rest, and drops the entry once it is empty.
    /// Returns false, changing nothing, when `t` is not filed under `q`.
    pub fn remove_first(&mut self, q: &Q, t: T) -> (removed: bool)
        requires
            old(self).wf(),
        ensures
            final(self).wf(),
            removed == old(self).get_spec(q@).contains(t),
            !removed ==> final(self).ents() == old(self).ents(),
            removed ==> exists|i: int|
                0 <= i < old(self).ents().len() && old(self).ents()[i].0 == q@ && {
                    let rest = remove_first_of(old(self).ents()[i].1, t);
                    if rest.len() == 0 {
                        final(self).ents() == old(self).ents().remove(i)
                    } else {
                        final(self).ents() == old(self).ents().update(i, (q@, rest))
                    }
                },
            forall|k: Q::V|
                #![trigger bucket_of(final(self).ents(), k)]
                bucket_of(final(self).ents(), k) == if k == q@ {
                    remove_first_of(bucket_of(old(self).ents(), k), t)
                } else {
                    bucket_of(old(self).ents(), k)
                },
    {
        let ghost old_ents = self.ents();
        proof {
            lemma_bucket_of(old_ents, q@);
        }
        match self.position(q) {
            None => {
                proof {
                    lemma_first_index(bucket_of(old_ents, q@), t);
                }
                false
            },
            Some(i) => {
                let pos = item_position(&self.entries[i].1, t);
                match pos {
                    None => {
                        proof {
                            lemma_first_index(bucket_of(old_ents, q@), t);
                        }
                        false
                    },
                    Some(p) => {
                        let (k, mut items) = self.entries.remove(i);
                        let ghost before = items@;
                        proof {
                            lemma_first_index(before, t);
                        }
                        items.remove(p);
                        let ghost rest = remove_first_of(before, t);
                        if items.len() == 0 {
                            proof {
                                assert(self.ents() =~= old_ents.remove(i as int));
                            }
                        } else {
                            self.entries.insert(i, (k, items));
                            proof {
                                assert(self.ents() =~= old_ents.update(i as int, (q@, rest)));
                            }
                        }
                        proof {
                            assert(old_ents[i as int] == (k@, before));
                            lemma_replace_bucket_of(old_ents, self.ents(), i as int, rest);
                        }
                        true
                    },
                }
            },
        }
    }

    /// Removes every occurrence of `t` from `q`'s list, keeping the order
    /// of the rest, and drops the entry once it is empty.
    pub fn remove_all(&mut self, q: &Q, t: T)
        requires
            old(self).wf(),
        ensures
            final(self).wf(),
            forall|k: Q::V|
                #![trigger final(self).get_spec(k)]
                final(self).get_spec(k) == if k == q@ {
                    old(self).get_spec(k).filter(other_than(t))
                } else {
                    old(self).get_spec(k)
                },
    {
        let ghost old_ents = self.ents();
        proof {
            lemma_bucket_of(old_ents, q@);
        }
        match self.position(q) {
            None => {
                proof {
                    assert(bucket_of(old_ents, q@) =~= Seq::<T>::empty());
                    assert(Seq::<T>::empty().filter(other_than(t)) =~= Seq::<T>::empty()) by {
                        reveal(Seq::filter);
                    }
                }
            },
            Some(i) => {
                let (k, items) = self.entries.remove(i);
                let kept = without_item(&items, t);
                if kept.len() > 0 {
                    self.entries.insert(i, (k, kept));
                }
                proof {
                    let new_b = items@.filter(other_than(t));
                    assert(kept@ == new_b);
                    assert(old_ents[i as int] == (k@, items@));
                    assert(k@ == q@);
                    if new_b.len() == 0 {
                        assert(self.ents() =~= old_ents.remove(i as int));
                    } else {
                        assert(self.ents() =~= old_ents.update(i as int, (q@, new_b)));
                    }
                    assert(entries_wf(self.ents())) by {
                        assert forall|a: int, b: int|
                            0 <= a < b < self.ents().len() implies self.ents()[a].0
                            != self.ents()[b].0 by {
                            if new_b.len() == 0 {
                                let a0 = if a < i { a } else { a + 1 };
                                let b0 = if b < i { b } else { b + 1 };
                                assert(self.ents()[a] == old_ents[a0]);
                                assert(self.ents()[b] == old_ents[b0]);
                            }
                        }
                    }
                    assert forall|kk: Q::V| #![trigger self.get_spec(kk)] self.get_spec(kk) == if kk
                        == q@ {
                        bucket_of(old_ents, kk).filter(other_than(t))
                    } else {
                        bucket_of(old_ents, kk)
                    } by {
                        lemma_bucket_of(self.ents(), kk);
                        lemma_bucket_of(old_ents, kk);
                        if kk == q@ {
                            assert(bucket_of(old_ents, kk) == items@);
                            if new_b.len() == 0 {
                                assert forall|j: int| 0 <= j < self.ents().len() implies self.ents()[j].0
                                    != kk by {
                                    let j0 = if j < i { j } else { j + 1 };
                                    assert(self.ents()[j] == old_ents[j0]);
                                }
                                assert(new_b =~= Seq::<T>::empty());
                                assert(self.get_spec(kk) =~= new_b);
                            } else {
                                assert(self.ents()[i as int] == (q@, new_b));
                                assert(self.get_spec(kk) =~= new_b);
                            }
                        } else {
                            if exists|j: int| 0 <= j < old_ents.len() && old_ents[j].0 == kk {
                                let j = choose|j: int| 0 <= j < old_ents.len() && old_ents[j].0 == kk;
                                if new_b.len() == 0 {
                                    let j1 = if j < i { j } else { j - 1 };
                                    assert(self.ents()[j1] == old_ents[j]);
                                } else {
                                    assert(self.ents()[j] == old_ents[j]);
                                }
                            } else {
                                assert forall|j: int| 0 <= j < self.ents().len() implies self.ents()[j].0
                                    != kk by {
                                    if new_b.len() == 0 {
                                        let j0 = if j < i { j } else { j + 1 };
                                        assert(self.ents()[j] == old_ents[j0]);
                                    } else if j != i {
                                        assert(self.ents()[j] == old_ents[j]);
                                    }
                                }
                            }
                        }
                    }
                }
            },
        }
    }
}

/// An item-by-item copy of `v`.
fn copy_items<T: BucketItem>(v: &Vec<T>) -> (r: Vec<T>)
    ensures
        r@ == v@,
{
    let mut r: Vec<T> = Vec::new();
    let mut i: usize = 0;
    while i < v.len()
        invariant
            i <= v.len(),
            r@ == v@.take(i as int),
        decreases v.len() - i,
    {
        r.push(v[i]);
        i += 1;
        proof {
            assert(r@ =~= v@.take(i as int));
        }
    }
    proof {
        assert(v@.take(v@.len() as int) =~= v@);
    }
    r
}

/// The index of the first occurrence of `t` in `v`, if any.
fn item_position<T: BucketItem>(v: &Vec<T>, t: T) -> (r: Option<usize>)
    ensures
        match r {
            Some(p) => p as int == first_index(v@, t),
            None => !v@.contains(t),
        },
{
    proof {
        lemma_first_index(v@, t);
    }
    let mut i: usize = 0;
    while i < v.len()
        invariant
            i <= v.len(),
            forall|j: int| 0 <= j < i ==> v@[j] != t,
            -1 <= first_index(v@, t) < v@.len(),
            first_index(v@, t) >= 0 ==> v@[first_index(v@, t)] == t,
            first_index(v@, t) >= 0 ==> forall|j: int| 0 <= j < first_index(v@, t) ==> v@[j] != t,
            first_index(v@, t) < 0 <==> !v@.contains(t),
        decreases v.len() - i,
    {
        if v[i].same_item(&t) {
            return Some(i);
        }
        i += 1;
    }
    None
}

/// The items of `v` other than `t`, in order.
fn without_item<T: BucketItem>(v: &Vec<T>, t: T) -> (r: Vec<T>)
    ensures
        r@ == v@.filter(other_than(t)),
{
    let mut r: Vec<T> = Vec::new();
    let mut i: usize = 0;
    while i < v.len()
        invariant
            i <= v.len(),
            r@ == v@.take(i as int).filter(other_than(t)),
        decreases v.len() - i,
    {
        proof {
            assert(v@.take(i + 1).drop_last() =~= v@.take(i as int));
            reveal(Seq::filter);
        }
        if !v[i].same_item(&t) {
            r.push(v[i]);
        }
        i += 1;
    }
    proof {
        assert(v@.take(v@.len() as int) =~= v@);
    }
    r
}

} // verus!
