//! The per-tick driver: it picks the points to recompute, without repeating
//! one, and hands their coordinates out as one batch.

use crate::dirty::{least, lemma_least, smallest};
use crate::random::{entropy_rng, uniform_i32};
use crate::region::{Axis, InputPoints, PointsView};
use std::collections::HashMap;
use vstd::prelude::*;

verus! {

broadcast use vstd::std_specs::hash::group_hash_axioms;

/// A batch as plain mathematical values: the selected indices in the order of
/// their first selection, and the coordinates of each.
pub struct BatchView {
    pub idxs: Seq<u32>,
    pub xs: Seq<i32>,
    pub ys: Seq<i32>,
}

impl BatchView {
    /// The three sequences are parallel and no index occurs twice.
    pub open spec fn wf(self) -> bool {
        &&& self.idxs.len() == self.xs.len()
        &&& self.idxs.len() == self.ys.len()
        &&& self.idxs.no_duplicates()
    }

    /// The number of entries.
    pub open spec fn len(self) -> nat {
        self.idxs.len()
    }

    /// The batch without entries.
    pub open spec fn empty() -> BatchView {
        BatchView { idxs: Seq::empty(), xs: Seq::empty(), ys: Seq::empty() }
    }

    /// This batch after `idx` was selected with the coordinates `x` and `y`:
    /// an index that the batch holds keeps its place and gets the new
    /// coordinates; another one is appended.
    pub open spec fn recorded(self, idx: u32, x: i32, y: i32) -> BatchView {
        if self.idxs.contains(idx) {
            let slot = self.idxs.index_of(idx);
            BatchView { idxs: self.idxs, xs: self.xs.update(slot, x), ys: self.ys.update(slot, y) }
        } else {
            BatchView { idxs: self.idxs.push(idx), xs: self.xs.push(x), ys: self.ys.push(y) }
        }
    }

    /// Every entry names a point of `points` and holds its coordinates.
    pub open spec fn mirrors(self, points: PointsView) -> bool {
        forall|k: int|
            0 <= k < self.len() ==> (#[trigger] self.idxs[k]) < points.len() && self.xs[k]
                == points.xs[self.idxs[k] as int] && self.ys[k] == points.ys[self.idxs[k] as int]
    }
}

/// The update batch of one tick.
pub struct UpdateBuffer {
    idxs: Vec<u32>,
    xs: Vec<i32>,
    ys: Vec<i32>,
    slot_of: HashMap<u32, usize>,
}

impl View for UpdateBuffer {
    type V = BatchView;

    closed spec fn view(&self) -> BatchView {
        BatchView { idxs: self.idxs@, xs: self.xs@, ys: self.ys@ }
    }
}

impl UpdateBuffer {
    /// The batch knows the place of each of its indices, and of no other.
    pub closed spec fn wf(&self) -> bool {
        &&& self.idxs@.len() == self.xs@.len()
        &&& self.idxs@.len() == self.ys@.len()
        &&& forall|k: int|
            0 <= k < self.idxs@.len() ==> self.slot_of@.contains_key(#[trigger] self.idxs@[k])
                && self.slot_of@[self.idxs@[k]] == k
        &&& forall|i: u32| #[trigger]
            self.slot_of@.contains_key(i) ==> self.slot_of@[i] < self.idxs@.len()
                && self.idxs@[self.slot_of@[i] as int] == i
    }

    /// A well-formed batch has parallel sequences and repeats no index.
    pub proof fn lemma_wf(&self)
        requires
            self.wf(),
        ensures
            self@.wf(),
    {
        assert forall|a: int, b: int|
            0 <= a < self.idxs@.len() && 0 <= b < self.idxs@.len() && a != b implies self.idxs@[a]
            != self.idxs@[b] by {
            assert(self.slot_of@[self.idxs@[a]] == a);
            assert(self.slot_of@[self.idxs@[b]] == b);
        }
    }

    /// A batch without entries.
    pub fn new() -> (b: Self)
        ensures
            b.wf(),
            b@ == BatchView::empty(),
    {
        UpdateBuffer { idxs: Vec::new(), xs: Vec::new(), ys: Vec::new(), slot_of: HashMap::new() }
    }

    /// The number of entries.
    pub fn len(&self) -> (n: usize)
        ensures
            n == self@.len(),
    {
        self.idxs.len()
    }

    /// The selected indices, in the order of their first selection.
    pub fn idxs(&self) -> (v: &Vec<u32>)
        ensures
            v@ == self@.idxs,
    {
        &self.idxs
    }

    /// The X coordinate of each entry.
    pub fn xs(&self) -> (v: &Vec<i32>)
        ensures
            v@ == self@.xs,
    {
        &self.xs
    }

    /// The Y coordinate of each entry.
    pub fn ys(&self) -> (v: &Vec<i32>)
        ensures
            v@ == self@.ys,
    {
        &self.ys
    }

    /// Enters the selection of `idx` with the coordinates `x` and `y`. Where
    /// the batch holds `idx` already, its entry is overwritten: the last
    /// selection wins and no index is entered twice.
    pub fn record(&mut self, idx: u32, x: i32, y: i32)
        requires
            old(self).wf(),
        ensures
            final(self).wf(),
            final(self)@.wf(),
            final(self)@ == old(self)@.recorded(idx, x, y),
    {
        proof {
            self.lemma_wf();
        }
        let found: Option<usize> = match self.slot_of.get(&idx) {
            Some(slot) => Some(*slot),
            None => None,
        };
        match found {
            Some(slot) => {
                assert(self.idxs@[slot as int] == idx);
                assert(self.idxs@.contains(idx));
                assert(self.idxs@.index_of(idx) == slot);
                self.xs[slot] = x;
                self.ys[slot] = y;
            },
            None => {
                assert(!self.idxs@.contains(idx)) by {
                    if self.idxs@.contains(idx) {
                        let k = self.idxs@.index_of(idx);
                        assert(self.slot_of@.contains_key(self.idxs@[k]));
                    }
                }
                self.slot_of.insert(idx, self.idxs.len());
                self.idxs.push(idx);
                self.xs.push(x);
                self.ys.push(y);
            },
        }
        proof {
            self.lemma_wf();
        }
    }
}

/// `new` and `batch` are what one tick makes of `old`.
///
/// The tick makes `refresh_rate` selections at most. It first takes the
/// smallest dirty indices, in ascending order. Where these run out, it stops,
/// unless random refresh is on: then each further selection appends a point
/// while the ceiling allows it, and picks an existing point after that, and
/// the selected point gets new coordinates from the rectangle. With no point
/// and no room for one it stops as well.
///
/// The batch holds each selected index once, with the coordinates that the
/// point has after the tick.
pub open spec fn ticked(old: PointsView, new: PointsView, batch: BatchView) -> bool {
    let drained = smallest(old.dirty, old.refresh_rate as nat);
    let fallbacks = old.refresh_rate - drained.len();
    &&& batch.wf()
    &&& batch.mirrors(new)
    &&& drained.len() <= batch.len() <= old.refresh_rate
    &&& batch.idxs.take(drained.len() as int) == drained
    &&& new == (PointsView {
        xs: new.xs,
        ys: new.ys,
        dirty: old.dirty.difference(drained.to_set()),
        ..old
    })
    &&& if old.refresh_random {
        &&& new.len() == if old.len() + fallbacks <= old.max_len {
            old.len() + fallbacks
        } else {
            old.max_len as int
        }
        &&& drained.len() + (new.len() - old.len()) <= batch.len()
        &&& forall|k: int|
            drained.len() <= k < drained.len() + (new.len() - old.len()) ==> #[trigger] batch.idxs[k]
                == old.len() + (k - drained.len())
        &&& forall|i: int|
            0 <= i < new.len() ==> (i < old.len() && #[trigger] new.xs[i] == old.xs[i] && new.ys[i]
                == old.ys[i]) || (new.in_region(i) && batch.idxs.contains(i as u32))
    } else {
        &&& batch.idxs == drained
        &&& new.xs == old.xs
        &&& new.ys == old.ys
    }
}

/// Runs one tick on `points` and returns its batch: see [`ticked`].
pub fn periodic_updates(points: &mut InputPoints) -> (batch: UpdateBuffer)
    requires
        old(points).wf(),
    ensures
        final(points).wf(),
        batch.wf(),
        ticked(old(points)@, final(points)@, batch@),
{
    let rate: u32 = points.refresh_rate();
    let random: bool = points.refresh_random();
    let ceiling: u32 = points.max_len();
    let x_lo: i32 = points.x_range().lower();
    let x_hi: i32 = points.x_range().upper();
    let y_lo: i32 = points.y_range().lower();
    let y_hi: i32 = points.y_range().upper();
    let mut batch = UpdateBuffer::new();
    let mut rng = entropy_rng();
    let mut t: u32 = 0;
    let ghost start = points@;
    let ghost drained = smallest(start.dirty, rate as nat);
    let ghost mut popped: int = 0;
    proof {
        assert(batch@.idxs.take(0) =~= Seq::<u32>::empty());
        assert(drained =~= batch@.idxs.take(0) + smallest(points@.dirty, rate as nat));
        assert(points@.dirty =~= start.dirty.difference(batch@.idxs.take(0).to_set()));
    }
    loop
        invariant
            start == old(points)@,
            start.wf(),
            points.wf(),
            batch.wf(),
            batch@.wf(),
            rate == start.refresh_rate,
            random == start.refresh_random,
            ceiling == start.max_len,
            x_lo == start.x_range.low(),
            x_hi == start.x_range.high(),
            y_lo == start.y_range.low(),
            y_hi == start.y_range.high(),
            drained == smallest(start.dirty, rate as nat),
            t <= rate,
            0 <= popped <= t,
            popped <= batch@.len() <= t,
            popped < t ==> random && points@.dirty.is_empty(),
            popped == t ==> batch@.len() == t && points@.xs == start.xs && points@.ys == start.ys,
            drained == batch@.idxs.take(popped) + smallest(points@.dirty, (rate - popped) as nat),
            points@.dirty == start.dirty.difference(batch@.idxs.take(popped).to_set()),
            points@ == (PointsView {
                xs: points@.xs,
                ys: points@.ys,
                dirty: points@.dirty,
                ..start
            }),
            batch@.mirrors(points@),
            points@.len() == if start.len() + (t - popped) <= ceiling {
                start.len() + (t - popped)
            } else {
                ceiling as int
            },
            points@.len() < ceiling ==> batch@.len() == t,
            popped + (points@.len() - start.len()) <= batch@.len(),
            forall|k: int|
                popped <= k < popped + (points@.len() - start.len()) ==> #[trigger] batch@.idxs[k]
                    == start.len() + (k - popped),
            forall|i: int|
                0 <= i < points@.len() ==> (i < start.len() && #[trigger] points@.xs[i]
                    == start.xs[i] && points@.ys[i] == start.ys[i]) || (points@.in_region(i)
                    && batch@.idxs.contains(i as u32)),
        ensures
            t == rate || (points@.dirty.is_empty() && ((popped == t && !random) || ceiling == 0)),
        decreases rate - t,
    {
        if t >= rate {
            break ;
        }
        let ghost before = points@;
        let ghost entries = batch@;
        let idx: u32 = match points.pop_dirty() {
            Some(i) => {
                proof {
                    let r = (rate - popped) as nat;
                    assert(smallest(before.dirty, r) == seq![i] + smallest(
                        before.dirty.remove(i),
                        (r - 1) as nat,
                    ));
                    assert(popped == t);
                }
                i
            },
            None => {
                if !random {
                    break ;
                }
                let n: u32 = points.len();
                let i: u32 = if n < ceiling {
                    points.push_point(i32::MAX, i32::MAX);
                    n
                } else if n == 0 {
                    break ;
                } else {
                    uniform_i32(&mut rng, 0, (n - 1) as i32) as u32
                };
                let x: i32 = uniform_i32(&mut rng, x_lo, x_hi);
                let y: i32 = uniform_i32(&mut rng, y_lo, y_hi);
                points.place(i, x, y);
                i
            },
        };
        let x: i32 = points.coord(Axis::X, idx);
        let y: i32 = points.coord(Axis::Y, idx);
        batch.record(idx, x, y);
        t = t + 1;
        proof {
            if before.dirty.is_empty() {
                // a refreshed point: the drained prefix stays as it is
                assert(batch@.idxs.take(popped) =~= entries.idxs.take(popped));
                assert(smallest(points@.dirty, (rate - popped) as nat) =~= Seq::<u32>::empty());
            } else {
                // a drained point: it is new to the batch and extends the prefix
                assert(!entries.idxs.contains(idx)) by {
                    if entries.idxs.contains(idx) {
                        let k = entries.idxs.index_of(idx);
                        assert(entries.idxs.take(popped)[k] == idx);
                        assert(entries.idxs.take(popped).to_set().contains(idx));
                    }
                }
                assert(entries.idxs.take(popped) =~= entries.idxs);
                popped = popped + 1;
                assert(batch@.idxs.take(popped) =~= entries.idxs.push(idx));
                assert(batch@.idxs.take(popped) =~= entries.idxs.take(popped - 1) + seq![idx]);
                assert(entries.idxs.take(popped - 1) + (seq![idx] + smallest(
                    points@.dirty,
                    (rate - popped) as nat,
                )) =~= batch@.idxs.take(popped) + smallest(points@.dirty, (rate - popped) as nat));
                assert(points@.dirty =~= start.dirty.difference(
                    batch@.idxs.take(popped).to_set(),
                )) by {
                    assert forall|v: u32|
                        points@.dirty.contains(v) <==> start.dirty.difference(
                            batch@.idxs.take(popped).to_set(),
                        ).contains(v) by {
                        let prefix = entries.idxs.take(popped - 1);
                        let longer = batch@.idxs.take(popped);
                        if prefix.contains(v) {
                            let k = prefix.index_of(v);
                            assert(longer[k] == v);
                        }
                        assert(longer[popped - 1] == idx);
                        if longer.contains(v) && v != idx {
                            let k = longer.index_of(v);
                            assert(prefix[k] == v);
                        }
                    }
                }
            }
            assert(batch@.mirrors(points@)) by {
                assert forall|k: int| 0 <= k < batch@.len() implies (#[trigger] batch@.idxs[k])
                    < points@.len() && batch@.xs[k] == points@.xs[batch@.idxs[k] as int]
                    && batch@.ys[k] == points@.ys[batch@.idxs[k] as int] by {
                    if k < entries.len() && entries.idxs[k] != idx {
                        assert(entries.idxs[k] < before.len());
                    }
                    if entries.idxs.contains(idx) {
                        assert(entries.idxs[entries.idxs.index_of(idx)] == idx);
                    }
                }
            }
            assert forall|i: int| 0 <= i < points@.len() implies (i < start.len()
                && #[trigger] points@.xs[i] == start.xs[i] && points@.ys[i] == start.ys[i]) || (
            points@.in_region(i) && batch@.idxs.contains(i as u32)) by {
                if i == idx {
                    if entries.idxs.contains(idx) {
                        assert(batch@.idxs[entries.idxs.index_of(idx)] == idx);
                    } else {
                        assert(batch@.idxs[entries.len() as int] == idx);
                    }
                } else if i < before.len() {
                    if !(i < start.len() && before.xs[i] == start.xs[i] && before.ys[i]
                        == start.ys[i]) {
                        assert(before.in_region(i));
                        let k = entries.idxs.index_of(i as u32);
                        assert(batch@.idxs[k] == i as u32);
                    }
                }
            }
        }
    }
    proof {
        assert(smallest(points@.dirty, (rate - popped) as nat) =~= Seq::<u32>::empty());
        assert(drained =~= batch@.idxs.take(popped));
        if popped == t {
            assert(batch@.idxs.take(popped) =~= batch@.idxs);
        }
    }
    batch
}

/// Evaluates `f` at each pair of coordinates and stores the values in `r`, in
/// the order of the pairs.
pub fn test_batched_gen<T, F: Fn(i32, i32) -> T>(x: &[i32], y: &[i32], r: &mut [T], f: F)
    requires
        x@.len() == y@.len(),
        x@.len() == old(r)@.len(),
        forall|k: int| 0 <= k < x@.len() ==> f.requires((x@[k], y@[k])),
    ensures
        final(r)@.len() == x@.len(),
        forall|k: int| 0 <= k < x@.len() ==> f.ensures((x@[k], y@[k]), #[trigger] final(r)@[k]),
{
    let n: usize = x.len();
    let mut k: usize = 0;
    while k < n
        invariant
            n == x@.len(),
            n == y@.len(),
            n == r@.len(),
            k <= n,
            forall|j: int| 0 <= j < x@.len() ==> f.requires((x@[j], y@[j])),
            forall|j: int| 0 <= j < k ==> f.ensures((x@[j], y@[j]), #[trigger] r@[j]),
        decreases n - k,
    {
        r[k] = f(x[k], y[k]);
        k = k + 1;
    }
}

impl UpdateBuffer {
    /// The values of one evaluator at the coordinates of the entries, in the
    /// order of the entries.
    fn evaluate_one<T, F: Fn(u32, i32, i32) -> T>(&self, id: u32, eval: &F) -> (values: Vec<T>)
        requires
            self.wf(),
            forall|k: int| 0 <= k < self@.len() ==> eval.requires((id, self@.xs[k], self@.ys[k])),
        ensures
            values@.len() == self@.len(),
            forall|k: int|
                0 <= k < self@.len() ==> eval.ensures(
                    (id, self@.xs[k], self@.ys[k]),
                    #[trigger] values@[k],
                ),
    {
        let n: usize = self.idxs.len();
        let mut values: Vec<T> = Vec::new();
        let mut k: usize = 0;
        while k < n
            invariant
                self.wf(),
                n == self@.len(),
                k <= n,
                values@.len() == k,
                forall|j: int|
                    0 <= j < self@.len() ==> eval.requires((id, self@.xs[j], self@.ys[j])),
                forall|j: int|
                    0 <= j < k ==> eval.ensures(
                        (id, self@.xs[j], self@.ys[j]),
                        #[trigger] values@[j],
                    ),
            decreases n - k,
        {
            values.push(eval(id, self.xs[k], self.ys[k]));
            k = k + 1;
        }
        values
    }

    /// Runs each evaluator of `ids` over the batch: `eval` gets the
    /// evaluator's id and the coordinates of one entry. The result holds one
    /// pair for each id, in the order of `ids`: the id, and the values in the
    /// order of the entries.
    pub fn evaluate<T, F: Fn(u32, i32, i32) -> T>(&self, ids: &[u32], eval: F) -> (outputs: Vec<
        (u32, Vec<T>),
    >)
        requires
            self.wf(),
            forall|j: int, k: int|
                0 <= j < ids@.len() && 0 <= k < self@.len() ==> eval.requires(
                    (ids@[j], self@.xs[k], self@.ys[k]),
                ),
        ensures
            outputs@.len() == ids@.len(),
            forall|j: int|
                0 <= j < ids@.len() ==> (#[trigger] outputs@[j]).0 == ids@[j] && outputs@[j].1@.len()
                    == self@.len(),
            forall|j: int, k: int|
                0 <= j < ids@.len() && 0 <= k < self@.len() ==> eval.ensures(
                    (ids@[j], self@.xs[k], self@.ys[k]),
                    #[trigger] outputs@[j].1@[k],
                ),
    {
        let m: usize = ids.len();
        let mut outputs: Vec<(u32, Vec<T>)> = Vec::new();
        let mut j: usize = 0;
        while j < m
            invariant
                self.wf(),
                m == ids@.len(),
                j <= m,
                outputs@.len() == j,
                forall|a: int, k: int|
                    0 <= a < ids@.len() && 0 <= k < self@.len() ==> eval.requires(
                        (ids@[a], self@.xs[k], self@.ys[k]),
                    ),
                forall|a: int|
                    0 <= a < j ==> (#[trigger] outputs@[a]).0 == ids@[a] && outputs@[a].1@.len()
                        == self@.len(),
                forall|a: int, k: int|
                    0 <= a < j && 0 <= k < self@.len() ==> eval.ensures(
                        (ids@[a], self@.xs[k], self@.ys[k]),
                        #[trigger] outputs@[a].1@[k],
                    ),
            decreases m - j,
        {
            let id: u32 = ids[j];
            let values: Vec<T> = self.evaluate_one(id, &eval);
            outputs.push((id, values));
            j = j + 1;
        }
        outputs
    }
}

} // verus!
