//! The set of indices whose points changed since they were last consumed.

use std::collections::BTreeSet;
use vstd::prelude::*;

verus! {

broadcast use {vstd::laws_cmp::group_laws_cmp, vstd::std_specs::btree::group_btree_axioms};

/// The indices from `lo` up to, not including, `hi`.
pub open spec fn index_range(lo: u32, hi: u32) -> Set<u32> {
    Set::new(|i: u32| lo <= i < hi)
}

/// The members of `s` below `threshold`.
pub open spec fn below(s: Set<u32>, threshold: u32) -> Set<u32> {
    s.filter(|i: u32| i < threshold)
}

/// Whether `x` is the least member of `s`.
pub open spec fn is_least(s: Set<u32>, x: u32) -> bool {
    s.contains(x) && forall|y: u32| s.contains(y) ==> x <= y
}

/// The least member of a non-empty finite set.
pub open spec fn least(s: Set<u32>) -> u32 {
    choose|x: u32| is_least(s, x)
}

/// Whether a sequence is strictly ascending.
pub open spec fn ascending(v: Seq<u32>) -> bool {
    forall|i: int, j: int| 0 <= i < j < v.len() ==> v[i] < v[j]
}

/// The `k` smallest members of `s` in ascending order, or all of them where
/// `s` has fewer.
pub open spec fn smallest(s: Set<u32>, k: nat) -> Seq<u32>
    decreases k,
{
    if k == 0 || s.is_empty() {
        Seq::empty()
    } else {
        seq![least(s)] + smallest(s.remove(least(s)), (k - 1) as nat)
    }
}

/// What `rounds` successive removals of the single smallest member yield, one
/// after the other.
pub open spec fn drain_by_ones(s: Set<u32>, rounds: nat) -> Seq<u32>
    decreases rounds,
{
    if rounds == 0 {
        Seq::empty()
    } else {
        let taken = smallest(s, 1);
        taken + drain_by_ones(s.difference(taken.to_set()), (rounds - 1) as nat)
    }
}

/// A non-empty finite set of indices has a least member, and only one.
pub proof fn lemma_least(s: Set<u32>)
    requires
        s.finite(),
        !s.is_empty(),
    ensures
        is_least(s, least(s)),
        forall|x: u32| is_least(s, x) ==> x == least(s),
    decreases s.len(),
{
    let a = s.choose();
    let rest = s.remove(a);
    if rest.is_empty() {
        assert forall|y: u32| s.contains(y) implies a <= y by {
            if y != a {
                assert(rest.contains(y));
            }
        }
        assert(is_least(s, a));
    } else {
        lemma_least(rest);
        let m = least(rest);
        let w = if a <= m {
            a
        } else {
            m
        };
        assert forall|y: u32| s.contains(y) implies w <= y by {
            if y != a {
                assert(rest.contains(y));
            }
        }
        assert(is_least(s, w));
    }
}

/// `smallest(s, k)` is strictly ascending, has `k` members or all of `s`,
/// holds members of `s` only, and each of them lies below every member of `s`
/// that it leaves out.
pub proof fn lemma_smallest(s: Set<u32>, k: nat)
    requires
        s.finite(),
    ensures
        ascending(smallest(s, k)),
        smallest(s, k).len() == if k <= s.len() {
            k
        } else {
            s.len()
        },
        smallest(s, k).to_set().subset_of(s),
        forall|i: int, y: u32|
            0 <= i < smallest(s, k).len() && s.contains(y) && !smallest(s, k).contains(y)
                ==> smallest(s, k)[i] < y,
    decreases k,
{
    if k == 0 || s.is_empty() {
        assert(smallest(s, k).to_set() =~= Set::<u32>::empty());
    } else {
        lemma_least(s);
        let m = least(s);
        let rest = s.remove(m);
        let tail = smallest(rest, (k - 1) as nat);
        let all = smallest(s, k);
        lemma_smallest(rest, (k - 1) as nat);
        assert(all =~= seq![m] + tail);
        assert forall|i: int| 0 <= i < tail.len() implies rest.contains(#[trigger] tail[i]) by {
            assert(tail.to_set().contains(tail[i]));
        }
        assert forall|i: int, j: int| 0 <= i < j < all.len() implies all[i] < all[j] by {
            assert(all[j] == tail[j - 1]);
            if i > 0 {
                assert(all[i] == tail[i - 1]);
            }
        }
        assert forall|x: u32| all.to_set().contains(x) implies s.contains(x) by {
            let i = choose|i: int| 0 <= i < all.len() && all[i] == x;
            if i > 0 {
                assert(all[i] == tail[i - 1]);
            }
        }
        assert forall|i: int, y: u32|
            0 <= i < all.len() && s.contains(y) && !all.contains(y) implies all[i] < y by {
            assert(all[0] == m);
            assert(y != m);
            assert(rest.contains(y));
            if i > 0 {
                assert(all[i] == tail[i - 1]);
                if tail.contains(y) {
                    let j = choose|j: int| 0 <= j < tail.len() && tail[j] == y;
                    assert(all[j + 1] == y);
                }
            }
        }
    }
}

/// Taking `j` and then `k` smallest members is taking `j + k` at once.
pub proof fn lemma_smallest_split(s: Set<u32>, j: nat, k: nat)
    requires
        s.finite(),
    ensures
        smallest(s, j + k) == smallest(s, j) + smallest(
            s.difference(smallest(s, j).to_set()),
            k,
        ),
    decreases j,
{
    if j == 0 || s.is_empty() {
        assert(smallest(s, j).to_set() =~= Set::<u32>::empty());
        assert(s.difference(smallest(s, j).to_set()) =~= s);
        assert(smallest(s, j + k) =~= smallest(s, j) + smallest(s, k));
    } else {
        lemma_least(s);
        let m = least(s);
        let rest = s.remove(m);
        let head = smallest(rest, (j - 1) as nat);
        lemma_smallest_split(rest, (j - 1) as nat, k);
        lemma_smallest(rest, (j - 1) as nat);
        assert(smallest(s, j) =~= seq![m] + head);
        assert(s.difference(smallest(s, j).to_set()) =~= rest.difference(head.to_set())) by {
            assert forall|x: u32|
                s.difference(smallest(s, j).to_set()).contains(x) <==> rest.difference(
                    head.to_set(),
                ).contains(x) by {
                if head.contains(x) {
                    let i = choose|i: int| 0 <= i < head.len() && head[i] == x;
                    assert(smallest(s, j)[i + 1] == x);
                }
                if smallest(s, j).contains(x) {
                    let i = choose|i: int| 0 <= i < smallest(s, j).len() && smallest(s, j)[i] == x;
                    if i > 0 {
                        assert(head[i - 1] == x);
                    } else {
                        assert(x == m);
                    }
                }
                assert(smallest(s, j)[0] == m);
            }
        }
        assert(smallest(s, j + k) =~= seq![m] + smallest(rest, (j - 1 + k) as nat));
        assert(smallest(s, j + k) =~= smallest(s, j) + smallest(
            s.difference(smallest(s, j).to_set()),
            k,
        ));
    }
}

/// Removing the single smallest member again and again, as often as the set
/// has members, yields every member exactly once, in strictly ascending order,
/// and leaves nothing behind.
pub proof fn lemma_drain_by_ones(s: Set<u32>)
    requires
        s.finite(),
    ensures
        drain_by_ones(s, s.len()) == smallest(s, s.len()),
        ascending(drain_by_ones(s, s.len())),
        drain_by_ones(s, s.len()).no_duplicates(),
        drain_by_ones(s, s.len()).len() == s.len(),
        drain_by_ones(s, s.len()).to_set() == s,
{
    lemma_drain_rounds(s, s.len());
    lemma_smallest(s, s.len());
    let d = smallest(s, s.len());
    assert forall|i: int, j: int| 0 <= i < d.len() && 0 <= j < d.len() && i != j implies d[i]
        != d[j] by {
        if i < j {
            assert(d[i] < d[j]);
        } else {
            assert(d[j] < d[i]);
        }
    }
    d.unique_seq_to_set();
    vstd::set_lib::lemma_subset_equality(d.to_set(), s);
}

/// Any number of removals of the single smallest member yields what one
/// removal of that many smallest members does.
pub proof fn lemma_drain_rounds(s: Set<u32>, rounds: nat)
    requires
        s.finite(),
    ensures
        drain_by_ones(s, rounds) == smallest(s, rounds),
    decreases rounds,
{
    if rounds > 0 {
        let taken = smallest(s, 1);
        lemma_smallest(s, 1);
        lemma_drain_rounds(s.difference(taken.to_set()), (rounds - 1) as nat);
        lemma_smallest_split(s, 1, (rounds - 1) as nat);
    }
}

/// Removes and returns the first member of a `BTreeSet`, by
/// `BTreeSet::pop_first`. Its documentation says that the first member is the
/// minimum of the set and that nothing is returned only where the set is
/// empty; this is what the contract claims.
#[verifier::external_body]
fn btree_pop_first(set: &mut BTreeSet<u32>) -> (first: Option<u32>)
    ensures
        match first {
            Some(x) => is_least(old(set)@, x) && final(set)@ == old(set)@.remove(x),
            None => old(set)@.is_empty() && final(set)@ == old(set)@,
        },
{
    set.pop_first()
}

/// Splits a `BTreeSet` at a value, by `BTreeSet::split_off`. Its documentation
/// says that the returned set holds the members greater than or equal to the
/// value; the contract claims this and that the others stay.
#[verifier::external_body]
fn btree_split_off(set: &mut BTreeSet<u32>, at: u32) -> (tail: BTreeSet<u32>)
    ensures
        final(set)@ == old(set)@.filter(|i: u32| i < at),
        tail@ == old(set)@.filter(|i: u32| i >= at),
{
    set.split_off(&at)
}

/// An ordered set of indices that are waiting to be recomputed.
pub struct DirtyIndexSet {
    items: BTreeSet<u32>,
}

impl View for DirtyIndexSet {
    type V = Set<u32>;

    closed spec fn view(&self) -> Set<u32> {
        self.items@
    }
}

impl DirtyIndexSet {
    /// The set holds finitely many indices.
    pub open spec fn wf(&self) -> bool {
        self@.finite()
    }

    /// An empty set.
    pub fn new() -> (s: Self)
        ensures
            s.wf(),
            s@ == Set::<u32>::empty(),
    {
        DirtyIndexSet { items: BTreeSet::new() }
    }

    /// The number of indices in the set.
    pub fn len(&self) -> (n: usize)
        ensures
            n == self@.len(),
    {
        self.items.len()
    }

    /// Whether the set holds no index.
    pub fn is_empty(&self) -> (b: bool)
        ensures
            b == self@.is_empty(),
    {
        self.items.is_empty()
    }

    /// Whether `idx` is in the set.
    pub fn contains(&self, idx: u32) -> (b: bool)
        ensures
            b == self@.contains(idx),
    {
        self.items.contains(&idx)
    }

    /// Adds `idx`; returns whether it was new. Adding a member again changes
    /// nothing.
    pub fn insert(&mut self, idx: u32) -> (added: bool)
        requires
            old(self).wf(),
        ensures
            final(self).wf(),
            final(self)@ == old(self)@.insert(idx),
            added == !old(self)@.contains(idx),
    {
        self.items.insert(idx)
    }

    /// Adds every index from `lo` up to, not including, `hi`.
    pub fn insert_range(&mut self, lo: u32, hi: u32)
        requires
            old(self).wf(),
        ensures
            final(self).wf(),
            final(self)@ == old(self)@.union(index_range(lo, hi)),
    {
        let mut i: u32 = lo;
        assert(self@ =~= old(self)@.union(index_range(lo, i)));
        while i < hi
            invariant
                lo <= i,
                i <= hi || i == lo,
                self.wf(),
                self@ == old(self)@.union(index_range(lo, i)),
            decreases hi - i,
        {
            self.items.insert(i);
            assert(self@ =~= old(self)@.union(index_range(lo, (i + 1) as u32)));
            i = i + 1;
        }
        assert(self@ =~= old(self)@.union(index_range(lo, hi)));
    }

    /// Removes and returns the smallest index, if there is one.
    pub fn pop_first(&mut self) -> (first: Option<u32>)
        requires
            old(self).wf(),
        ensures
            final(self).wf(),
            match first {
                Some(x) => old(self)@.contains(x) && x == least(old(self)@)
                    && final(self)@ == old(self)@.remove(x),
                None => old(self)@.is_empty() && final(self)@ == old(self)@,
            },
    {
        let first = btree_pop_first(&mut self.items);
        proof {
            if first.is_some() {
                lemma_least(old(self)@);
            }
        }
        first
    }

    /// Removes the `k` smallest indices, or all of them where the set has
    /// fewer, and returns them in ascending order.
    pub fn take_up_to(&mut self, k: usize) -> (taken: Vec<u32>)
        requires
            old(self).wf(),
        ensures
            final(self).wf(),
            taken@ == smallest(old(self)@, k as nat),
            final(self)@ == old(self)@.difference(taken@.to_set()),
    {
        let mut taken: Vec<u32> = Vec::new();
        assert(self@ =~= old(self)@.difference(taken@.to_set()));
        loop
            invariant
                self.wf(),
                old(self).wf(),
                taken@.len() <= k,
                smallest(old(self)@, k as nat) == taken@ + smallest(
                    self@,
                    (k - taken@.len()) as nat,
                ),
                self@ == old(self)@.difference(taken@.to_set()),
            ensures
                taken@ == smallest(old(self)@, k as nat),
            decreases k - taken@.len(),
        {
            if taken.len() >= k {
                assert(smallest(self@, 0) =~= Seq::<u32>::empty());
                assert(taken@ + Seq::<u32>::empty() =~= taken@);
                break;
            }
            let ghost before = self@;
            let ghost prefix = taken@;
            match self.pop_first() {
                Some(x) => {
                    taken.push(x);
                    proof {
                        let r = (k - prefix.len()) as nat;
                        assert(smallest(before, r) == seq![x] + smallest(
                            before.remove(x),
                            (r - 1) as nat,
                        ));
                        assert(taken@ =~= prefix + seq![x]);
                        assert(prefix + (seq![x] + smallest(self@, (r - 1) as nat)) =~= taken@
                            + smallest(self@, (r - 1) as nat));
                        assert forall|y: u32|
                            self@.contains(y) <==> old(self)@.difference(
                                taken@.to_set(),
                            ).contains(y) by {
                            if prefix.contains(y) {
                                let i = choose|i: int| 0 <= i < prefix.len() && prefix[i] == y;
                                assert(taken@[i] == y);
                            }
                            assert(taken@[prefix.len() as int] == x);
                            if taken@.contains(y) && y != x {
                                let i = choose|i: int| 0 <= i < taken@.len() && taken@[i] == y;
                                assert(prefix[i] == y);
                            }
                        }
                        assert(self@ =~= old(self)@.difference(taken@.to_set()));
                    }
                },
                None => {
                    assert(smallest(self@, (k - taken@.len()) as nat) =~= Seq::<u32>::empty());
                    assert(taken@ + Seq::<u32>::empty() =~= taken@);
                    break;
                },
            }
        }
        taken
    }

    /// Drops every index at or above `threshold`.
    pub fn evict_from(&mut self, threshold: u32)
        requires
            old(self).wf(),
        ensures
            final(self).wf(),
            final(self)@ == below(old(self)@, threshold),
    {
        let _ = btree_split_off(&mut self.items, threshold);
        proof {
            old(self)@.lemma_len_filter(|i: u32| i < threshold);
        }
    }
}

} // verus!
