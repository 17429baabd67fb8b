//! The rectangle, the points sampled in it, and the operations that move one
//! of its bounds or change the number of points.

use crate::dirty::{below, index_range, least, lemma_least, smallest, DirtyIndexSet};
use crate::growth::{cursor_after, lemma_selected_push, selected, GrowthSampler};
use crate::random::{entropy_rng, uniform_i32, uniform_u32};
use vstd::prelude::*;

verus! {

/// The hard upper bound of the capacity ceiling.
pub const MAX_LEN: u32 = 0x10_0000;

/// One of the two axes of the plane.
#[derive(Clone, Copy, Debug, PartialEq, Eq, Structural)]
pub enum Axis {
    X,
    Y,
}

/// One of the two endpoints of an axis range.
#[derive(Clone, Copy, Debug, PartialEq, Eq, Structural)]
pub enum Edge {
    Start,
    End,
}

/// The range of one axis: two endpoints, neither of which has to be the
/// smaller one.
#[derive(Clone, Copy, Debug, PartialEq, Eq, Structural)]
pub struct AxisRange {
    pub start: i32,
    pub end: i32,
}

impl AxisRange {
    /// The smaller endpoint.
    pub open spec fn low(self) -> int {
        if self.start <= self.end {
            self.start as int
        } else {
            self.end as int
        }
    }

    /// The larger endpoint.
    pub open spec fn high(self) -> int {
        if self.start <= self.end {
            self.end as int
        } else {
            self.start as int
        }
    }

    /// The distance between the endpoints, whichever is the larger.
    pub open spec fn span(self) -> int {
        self.high() - self.low()
    }

    /// Whether `v` lies between the endpoints, both included.
    pub open spec fn contains(self, v: int) -> bool {
        self.low() <= v <= self.high()
    }

    /// The endpoint at `edge`.
    pub open spec fn endpoint(self, edge: Edge) -> i32 {
        match edge {
            Edge::Start => self.start,
            Edge::End => self.end,
        }
    }

    /// This range with the endpoint at `edge` set to `v`.
    pub open spec fn with_endpoint(self, edge: Edge, v: i32) -> AxisRange {
        match edge {
            Edge::Start => AxisRange { start: v, end: self.end },
            Edge::End => AxisRange { start: self.start, end: v },
        }
    }

    /// A range from `start` to `end`.
    pub fn new(start: i32, end: i32) -> (r: AxisRange)
        ensures
            r == (AxisRange { start, end }),
    {
        AxisRange { start, end }
    }

    /// The smaller endpoint.
    pub fn lower(&self) -> (v: i32)
        ensures
            v == self.low(),
    {
        if self.start <= self.end {
            self.start
        } else {
            self.end
        }
    }

    /// The larger endpoint.
    pub fn upper(&self) -> (v: i32)
        ensures
            v == self.high(),
    {
        if self.start <= self.end {
            self.end
        } else {
            self.start
        }
    }

    /// The distance between the endpoints.
    pub fn extent(&self) -> (d: u32)
        ensures
            d == self.span(),
    {
        (self.upper() as i64 - self.lower() as i64) as u32
    }

    /// Whether `v` lies between the endpoints, both included.
    pub fn holds(&self, v: i32) -> (b: bool)
        ensures
            b == self.contains(v as int),
    {
        self.lower() <= v && v <= self.upper()
    }
}

/// A request to change the region or the number of points.
#[derive(Clone, Copy, Debug, PartialEq, Eq, Structural)]
pub enum RegionUpdate {
    StartX(i32),
    StartY(i32),
    EndX(i32),
    EndY(i32),
    SetLen(u32),
}

/// The indices below `upto` whose coordinate lies outside `range`.
pub open spec fn outside_upto(coords: Seq<i32>, range: AxisRange, upto: int) -> Set<u32> {
    Set::new(|i: u32| i < upto && i < coords.len() && !range.contains(coords[i as int] as int))
}

/// The indices whose coordinate lies outside `range`.
pub open spec fn outside(coords: Seq<i32>, range: AxisRange) -> Set<u32> {
    outside_upto(coords, range, coords.len() as int)
}

/// What the operations read and change: the state of the point set as plain
/// mathematical values.
pub struct PointsView {
    pub xs: Seq<i32>,
    pub ys: Seq<i32>,
    pub dirty: Set<u32>,
    pub x_range: AxisRange,
    pub y_range: AxisRange,
    pub max_len: u32,
    pub refresh_random: bool,
    pub refresh_rate: u32,
}

impl PointsView {
    /// The two coordinate sequences are parallel, no longer than the ceiling,
    /// which respects the hard bound, and only existing points are dirty.
    pub open spec fn wf(self) -> bool {
        &&& self.xs.len() == self.ys.len()
        &&& self.xs.len() <= self.max_len <= MAX_LEN
        &&& self.dirty.finite()
        &&& forall|i: u32| self.dirty.contains(i) ==> i < self.xs.len()
    }

    /// The number of points.
    pub open spec fn len(self) -> nat {
        self.xs.len()
    }

    /// The coordinates on one axis.
    pub open spec fn coords(self, axis: Axis) -> Seq<i32> {
        match axis {
            Axis::X => self.xs,
            Axis::Y => self.ys,
        }
    }

    /// The range of one axis.
    pub open spec fn range(self, axis: Axis) -> AxisRange {
        match axis {
            Axis::X => self.x_range,
            Axis::Y => self.y_range,
        }
    }

    /// Whether point `i` lies in the rectangle.
    pub open spec fn in_region(self, i: int) -> bool {
        self.x_range.contains(self.xs[i] as int) && self.y_range.contains(self.ys[i] as int)
    }

    /// This state with other coordinates on one axis.
    pub open spec fn with_coords(self, axis: Axis, coords: Seq<i32>) -> PointsView {
        match axis {
            Axis::X => PointsView { xs: coords, ..self },
            Axis::Y => PointsView { ys: coords, ..self },
        }
    }

    /// This state with another range on one axis.
    pub open spec fn with_range(self, axis: Axis, range: AxisRange) -> PointsView {
        match axis {
            Axis::X => PointsView { x_range: range, ..self },
            Axis::Y => PointsView { y_range: range, ..self },
        }
    }

    /// This state with another dirty set.
    pub open spec fn with_dirty(self, dirty: Set<u32>) -> PointsView {
        PointsView { dirty, ..self }
    }

    /// This state after point `idx` got the coordinate `value` on one axis and
    /// was marked dirty.
    pub open spec fn relocated(self, axis: Axis, idx: int, value: i32) -> PointsView {
        self.with_coords(axis, self.coords(axis).update(idx, value)).with_dirty(
            self.dirty.insert(idx as u32),
        )
    }

    /// This state after point `idx` got new coordinates on both axes.
    pub open spec fn placed(self, idx: int, x: i32, y: i32) -> PointsView {
        PointsView { xs: self.xs.update(idx, x), ys: self.ys.update(idx, y), ..self }
    }

    /// This state after a point was appended.
    pub open spec fn pushed(self, x: i32, y: i32) -> PointsView {
        PointsView { xs: self.xs.push(x), ys: self.ys.push(y), ..self }
    }

    /// This state cut down to its first `n` points: those beyond are gone,
    /// from the dirty set too.
    pub open spec fn truncated(self, n: int) -> PointsView {
        PointsView {
            xs: self.xs.take(n),
            ys: self.ys.take(n),
            dirty: below(self.dirty, n as u32),
            ..self
        }
    }
}

/// `new` is `old` with `n` points, `n` above the number that `old` has: the
/// old points are untouched, the new ones lie in the rectangle and are dirty.
pub open spec fn extended(old: PointsView, new: PointsView, n: int) -> bool {
    &&& new == (PointsView {
        xs: new.xs,
        ys: new.ys,
        dirty: old.dirty.union(index_range(old.len() as u32, n as u32)),
        ..old
    })
    &&& new.xs.len() == n
    &&& new.ys.len() == n
    &&& new.xs.take(old.len() as int) == old.xs
    &&& new.ys.take(old.len() as int) == old.ys
    &&& forall|i: int| old.len() <= i < n ==> #[trigger] new.in_region(i)
}

/// `new` is `old` after a request for `new_len` points: the request is cut
/// down to the ceiling; then either the tail is dropped or new points are
/// appended.
pub open spec fn resized(old: PointsView, new: PointsView, new_len: u32) -> bool {
    let n = if new_len <= old.max_len {
        new_len
    } else {
        old.max_len
    };
    if n <= old.len() {
        new == old.truncated(n as int)
    } else {
        extended(old, new, n as int)
    }
}

/// `new` is `old` after every point outside `range` on `axis` got a
/// coordinate inside it and was marked dirty. The points inside are untouched
/// and no dirtier than before.
pub open spec fn resampled_into(
    old: PointsView,
    new: PointsView,
    axis: Axis,
    range: AxisRange,
) -> bool {
    &&& new == old.with_coords(axis, new.coords(axis)).with_dirty(new.dirty)
    &&& new.coords(axis).len() == old.len()
    &&& forall|i: int|
        0 <= i < old.len() ==> range.contains(#[trigger] new.coords(axis)[i] as int) && (
        range.contains(old.coords(axis)[i] as int) ==> new.coords(axis)[i] == old.coords(axis)[i])
    &&& new.dirty == old.dirty.union(outside(old.coords(axis), range))
}

/// `new` is `old` after the points at the indices `picked` got a coordinate
/// from `lo` to `hi` on `axis` and were marked dirty. The other points are
/// untouched and no dirtier than before.
pub open spec fn scattered_into(
    old: PointsView,
    new: PointsView,
    axis: Axis,
    lo: int,
    hi: int,
    picked: Seq<nat>,
) -> bool {
    &&& new == old.with_coords(axis, new.coords(axis)).with_dirty(new.dirty)
    &&& new.coords(axis).len() == old.len()
    &&& new.dirty == old.dirty.union(Set::new(|i: u32| picked.contains(i as nat)))
    &&& forall|i: int|
        0 <= i < old.len() ==> (picked.contains(i as nat) ==> lo <= (#[trigger] new.coords(
            axis,
        )[i]) <= hi) && (!picked.contains(i as nat) ==> new.coords(axis)[i] == old.coords(axis)[i])
}

/// `new` is `old` after a growth of the span from `from` to `to` scattered
/// points into the band from `lo` to `hi`, with `draws` as the uniform draws
/// and `skips` as what `skip_of` made of them.
///
/// The points that move are those that the skips select. Every draw but the
/// last selects a point, so there is one draw more than points that move.
pub open spec fn growth_sampled<F: Fn(u32, u32, u32) -> u32>(
    old: PointsView,
    new: PointsView,
    axis: Axis,
    lo: int,
    hi: int,
    skip_of: F,
    from: u32,
    to: u32,
    draws: Seq<u32>,
    skips: Seq<u32>,
) -> bool {
    &&& draws.len() == skips.len()
    &&& forall|i: int|
        0 <= i < skips.len() ==> skip_of.ensures((draws[i], from, to), #[trigger] skips[i])
    &&& skips.len() == selected(skips, 0, old.len()).len() + 1
    &&& scattered_into(old, new, axis, lo, hi, selected(skips, 0, old.len()))
}

/// The lowest value strictly between an endpoint's old place and its new one.
pub open spec fn band_low(from: i32, to: i32) -> int {
    if to < from {
        to + 1
    } else {
        from + 1
    }
}

/// The highest value strictly between an endpoint's old place and its new one.
pub open spec fn band_high(from: i32, to: i32) -> int {
    if to < from {
        from - 1
    } else {
        to - 1
    }
}

/// `new` is `old` after the endpoint at `edge` of the range of `axis` moved to
/// `value`. The spans are taken against the opposite endpoint, which stays.
///
/// Where the span shrinks, the points outside the new range are resampled
/// into it. Where it stays, no point changes. Where it grows, points are
/// scattered into the band strictly between the old and the new endpoint, as
/// [`growth_sampled`] says for some draws; an empty band takes none.
pub open spec fn bound_moved<F: Fn(u32, u32, u32) -> u32>(
    old: PointsView,
    new: PointsView,
    axis: Axis,
    edge: Edge,
    value: i32,
    skip_of: F,
) -> bool {
    let before = old.range(axis);
    let after = before.with_endpoint(edge, value);
    let moved = old.with_range(axis, after);
    let from = before.endpoint(edge);
    if after.span() < before.span() {
        resampled_into(moved, new, axis, after)
    } else if after.span() == before.span() || band_low(from, value) > band_high(from, value) {
        new == moved
    } else {
        exists|draws: Seq<u32>, skips: Seq<u32>| #[trigger]
            growth_sampled(
                moved,
                new,
                axis,
                band_low(from, value),
                band_high(from, value),
                skip_of,
                before.span() as u32,
                after.span() as u32,
                draws,
                skips,
            )
    }
}

/// `new` is `old` after `update` was applied.
pub open spec fn region_changed<F: Fn(u32, u32, u32) -> u32>(
    old: PointsView,
    new: PointsView,
    update: RegionUpdate,
    skip_of: F,
) -> bool {
    match update {
        RegionUpdate::StartX(v) => bound_moved(old, new, Axis::X, Edge::Start, v, skip_of),
        RegionUpdate::StartY(v) => bound_moved(old, new, Axis::Y, Edge::Start, v, skip_of),
        RegionUpdate::EndX(v) => bound_moved(old, new, Axis::X, Edge::End, v, skip_of),
        RegionUpdate::EndY(v) => bound_moved(old, new, Axis::Y, Edge::End, v, skip_of),
        RegionUpdate::SetLen(n) => resized(old, new, n),
    }
}

/// The points, the rectangle that confines them, and the indices that wait to
/// be recomputed.
pub struct InputPoints {
    x_vec: Vec<i32>,
    y_vec: Vec<i32>,
    modified: DirtyIndexSet,
    x_range: AxisRange,
    y_range: AxisRange,
    max_len: u32,
    refresh_random: bool,
    refresh_rate: u32,
}

impl View for InputPoints {
    type V = PointsView;

    closed spec fn view(&self) -> PointsView {
        PointsView {
            xs: self.x_vec@,
            ys: self.y_vec@,
            dirty: self.modified@,
            x_range: self.x_range,
            y_range: self.y_range,
            max_len: self.max_len,
            refresh_random: self.refresh_random,
            refresh_rate: self.refresh_rate,
        }
    }
}

impl InputPoints {
    /// The state is well-formed, as [`PointsView::wf`] says.
    pub open spec fn wf(&self) -> bool {
        self@.wf()
    }

    /// No points yet, in the given rectangle. The ceiling is cut down to
    /// [`MAX_LEN`]; random refresh is on, at 100 points per tick.
    pub fn new(x_range: AxisRange, y_range: AxisRange, max_len: u32) -> (p: Self)
        ensures
            p.wf(),
            p@ == (PointsView {
                xs: Seq::empty(),
                ys: Seq::empty(),
                dirty: Set::empty(),
                x_range,
                y_range,
                max_len: if max_len <= MAX_LEN {
                    max_len
                } else {
                    MAX_LEN
                },
                refresh_random: true,
                refresh_rate: 100,
            }),
    {
        InputPoints {
            x_vec: Vec::new(),
            y_vec: Vec::new(),
            modified: DirtyIndexSet::new(),
            x_range,
            y_range,
            max_len: if max_len <= MAX_LEN {
                max_len
            } else {
                MAX_LEN
            },
            refresh_random: true,
            refresh_rate: 100,
        }
    }

    /// The number of points.
    pub fn len(&self) -> (n: u32)
        requires
            self.wf(),
        ensures
            n == self@.len(),
    {
        self.x_vec.len() as u32
    }

    /// The coordinates on the X axis.
    pub fn x_vec(&self) -> (v: &Vec<i32>)
        ensures
            v@ == self@.xs,
    {
        &self.x_vec
    }

    /// The coordinates on the Y axis.
    pub fn y_vec(&self) -> (v: &Vec<i32>)
        ensures
            v@ == self@.ys,
    {
        &self.y_vec
    }

    /// The dirty set.
    pub fn modified(&self) -> (d: &DirtyIndexSet)
        ensures
            d@ == self@.dirty,
    {
        &self.modified
    }

    /// The range of the X axis.
    pub fn x_range(&self) -> (r: AxisRange)
        ensures
            r == self@.x_range,
    {
        self.x_range
    }

    /// The range of the Y axis.
    pub fn y_range(&self) -> (r: AxisRange)
        ensures
            r == self@.y_range,
    {
        self.y_range
    }

    /// The range of one axis.
    pub fn range(&self, axis: Axis) -> (r: AxisRange)
        ensures
            r == self@.range(axis),
    {
        match axis {
            Axis::X => self.x_range,
            Axis::Y => self.y_range,
        }
    }

    /// The capacity ceiling.
    pub fn max_len(&self) -> (m: u32)
        ensures
            m == self@.max_len,
    {
        self.max_len
    }

    /// Whether a tick may refresh random points once nothing is dirty.
    pub fn refresh_random(&self) -> (b: bool)
        ensures
            b == self@.refresh_random,
    {
        self.refresh_random
    }

    /// The number of points that one tick handles at most.
    pub fn refresh_rate(&self) -> (r: u32)
        ensures
            r == self@.refresh_rate,
    {
        self.refresh_rate
    }

    /// Allows or forbids the refresh of random points.
    pub fn set_refresh_random(&mut self, on: bool)
        ensures
            final(self)@ == (PointsView { refresh_random: on, ..old(self)@ }),
    {
        self.refresh_random = on;
    }

    /// Sets the number of points that one tick handles at most.
    pub fn set_refresh_rate(&mut self, rate: u32)
        ensures
            final(self)@ == (PointsView { refresh_rate: rate, ..old(self)@ }),
    {
        self.refresh_rate = rate;
    }

    /// The coordinate of point `idx` on one axis.
    pub fn coord(&self, axis: Axis, idx: u32) -> (v: i32)
        requires
            self.wf(),
            idx < self@.len(),
        ensures
            v == self@.coords(axis)[idx as int],
    {
        match axis {
            Axis::X => self.x_vec[idx as usize],
            Axis::Y => self.y_vec[idx as usize],
        }
    }

    /// Marks point `idx` dirty, if there is such a point; returns whether
    /// there is.
    pub fn mark_dirty(&mut self, idx: u32) -> (known: bool)
        requires
            old(self).wf(),
        ensures
            final(self).wf(),
            known == (idx < old(self)@.len()),
            final(self)@ == old(self)@.with_dirty(
                if known {
                    old(self)@.dirty.insert(idx)
                } else {
                    old(self)@.dirty
                },
            ),
    {
        if (idx as usize) < self.x_vec.len() {
            self.modified.insert(idx);
            true
        } else {
            false
        }
    }

    /// Removes the smallest dirty index, if there is one, and returns it.
    pub fn pop_dirty(&mut self) -> (first: Option<u32>)
        requires
            old(self).wf(),
        ensures
            final(self).wf(),
            match first {
                Some(i) => old(self)@.dirty.contains(i) && i == least(old(self)@.dirty)
                    && i < old(self)@.len() && final(self)@ == old(self)@.with_dirty(
                    old(self)@.dirty.remove(i),
                ),
                None => old(self)@.dirty.is_empty() && final(self)@ == old(self)@,
            },
    {
        let first = self.modified.pop_first();
        proof {
            if first.is_some() {
                lemma_least(old(self)@.dirty);
            }
        }
        first
    }

    /// Removes the `k` smallest dirty indices, or all of them where there are
    /// fewer, and returns them in ascending order.
    pub fn take_dirty(&mut self, k: usize) -> (taken: Vec<u32>)
        requires
            old(self).wf(),
        ensures
            final(self).wf(),
            taken@ == smallest(old(self)@.dirty, k as nat),
            final(self)@ == old(self)@.with_dirty(old(self)@.dirty.difference(taken@.to_set())),
    {
        self.modified.take_up_to(k)
    }

    /// Gives point `idx` the coordinate `value` on one axis and marks it
    /// dirty.
    pub fn relocate(&mut self, axis: Axis, idx: u32, value: i32)
        requires
            old(self).wf(),
            idx < old(self)@.len(),
        ensures
            final(self).wf(),
            final(self)@ == old(self)@.relocated(axis, idx as int, value),
    {
        match axis {
            Axis::X => {
                self.x_vec[idx as usize] = value;
            },
            Axis::Y => {
                self.y_vec[idx as usize] = value;
            },
        }
        self.modified.insert(idx);
    }

    /// Gives point `idx` new coordinates on both axes. The dirty set stays as
    /// it is.
    pub fn place(&mut self, idx: u32, x: i32, y: i32)
        requires
            old(self).wf(),
            idx < old(self)@.len(),
        ensures
            final(self).wf(),
            final(self)@ == old(self)@.placed(idx as int, x, y),
    {
        self.x_vec[idx as usize] = x;
        self.y_vec[idx as usize] = y;
    }

    /// Appends a point. The dirty set stays as it is.
    pub fn push_point(&mut self, x: i32, y: i32)
        requires
            old(self).wf(),
            old(self)@.len() < old(self)@.max_len,
        ensures
            final(self).wf(),
            final(self)@ == old(self)@.pushed(x, y),
    {
        self.x_vec.push(x);
        self.y_vec.push(y);
    }

    /// Drops the points from index `n` on, from the dirty set too.
    pub fn truncate(&mut self, n: u32)
        requires
            old(self).wf(),
            n <= old(self)@.len(),
        ensures
            final(self).wf(),
            final(self)@ == old(self)@.truncated(n as int),
    {
        self.modified.evict_from(n);
        self.x_vec.truncate(n as usize);
        self.y_vec.truncate(n as usize);
        assert(self.x_vec@ =~= old(self)@.xs.take(n as int));
        assert(self.y_vec@ =~= old(self)@.ys.take(n as int));
    }

    /// Sets the capacity ceiling, cut down to [`MAX_LEN`], and drops the
    /// points beyond it.
    pub fn set_max_len(&mut self, max_len: u32)
        requires
            old(self).wf(),
        ensures
            final(self).wf(),
            final(self)@.max_len == if max_len <= MAX_LEN {
                max_len
            } else {
                MAX_LEN
            },
            final(self)@ == (PointsView {
                max_len: final(self)@.max_len,
                ..if final(self)@.max_len < old(self)@.len() {
                    old(self)@.truncated(final(self)@.max_len as int)
                } else {
                    old(self)@
                }
            }),
    {
        let ceiling: u32 = if max_len <= MAX_LEN {
            max_len
        } else {
            MAX_LEN
        };
        if (ceiling as usize) < self.x_vec.len() {
            self.truncate(ceiling);
        }
        self.max_len = ceiling;
    }

    /// Sets the number of points to `new_len`, or to the ceiling where that is
    /// less. New points are drawn from the rectangle and marked dirty;
    /// dropped points leave the dirty set.
    pub fn resize(&mut self, new_len: u32)
        requires
            old(self).wf(),
        ensures
            final(self).wf(),
            resized(old(self)@, final(self)@, new_len),
    {
        let n: u32 = if new_len <= self.max_len {
            new_len
        } else {
            self.max_len
        };
        let old_len: u32 = self.x_vec.len() as u32;
        if n > old_len {
            let mut rng = entropy_rng();
            let x_lo: i32 = self.x_range.lower();
            let x_hi: i32 = self.x_range.upper();
            let y_lo: i32 = self.y_range.lower();
            let y_hi: i32 = self.y_range.upper();
            let mut i: u32 = old_len;
            assert(self@.xs.take(old_len as int) =~= old(self)@.xs);
            assert(self@.ys.take(old_len as int) =~= old(self)@.ys);
            while i < n
                invariant
                    self.wf(),
                    old(self).wf(),
                    old_len == old(self)@.len(),
                    i == self@.len(),
                    old_len <= i <= n <= self@.max_len,
                    x_lo == self@.x_range.low(),
                    x_hi == self@.x_range.high(),
                    y_lo == self@.y_range.low(),
                    y_hi == self@.y_range.high(),
                    self@ == (PointsView { xs: self@.xs, ys: self@.ys, ..old(self)@ }),
                    self@.xs.take(old_len as int) == old(self)@.xs,
                    self@.ys.take(old_len as int) == old(self)@.ys,
                    forall|j: int| old_len <= j < i ==> #[trigger] self@.in_region(j),
                decreases n - i,
            {
                let ghost before = self@;
                let x = uniform_i32(&mut rng, x_lo, x_hi);
                let y = uniform_i32(&mut rng, y_lo, y_hi);
                self.push_point(x, y);
                i = i + 1;
                proof {
                    assert(self@.xs.take(old_len as int) =~= before.xs.take(old_len as int));
                    assert(self@.ys.take(old_len as int) =~= before.ys.take(old_len as int));
                    assert forall|j: int| old_len <= j < i implies #[trigger] self@.in_region(
                        j,
                    ) by {
                        if j < i - 1 {
                            assert(before.in_region(j));
                        }
                    }
                }
            }
            let ghost filled = self@;
            self.modified.insert_range(old_len, n);
            proof {
                assert forall|j: int| old_len <= j < n implies #[trigger] self@.in_region(j) by {
                    assert(filled.in_region(j));
                }
            }
        } else {
            self.truncate(n);
        }
    }

    /// Gives every point outside `range` on `axis` a fresh coordinate inside
    /// it and marks it dirty. Every point is looked at, for any of them may
    /// lie outside.
    fn resample_outside(&mut self, axis: Axis, range: AxisRange)
        requires
            old(self).wf(),
        ensures
            final(self).wf(),
            resampled_into(old(self)@, final(self)@, axis, range),
    {
        let lo: i32 = range.lower();
        let hi: i32 = range.upper();
        let n: u32 = self.x_vec.len() as u32;
        let mut rng = entropy_rng();
        let mut i: u32 = 0;
        assert(self@.dirty =~= old(self)@.dirty.union(
            outside_upto(old(self)@.coords(axis), range, 0),
        ));
        while i < n
            invariant
                self.wf(),
                old(self).wf(),
                n == old(self)@.len(),
                i <= n,
                lo == range.low(),
                hi == range.high(),
                self@ == old(self)@.with_coords(axis, self@.coords(axis)).with_dirty(self@.dirty),
                self@.coords(axis).len() == n,
                forall|j: int|
                    0 <= j < i ==> range.contains(#[trigger] self@.coords(axis)[j] as int) && (
                    range.contains(old(self)@.coords(axis)[j] as int) ==> self@.coords(axis)[j]
                        == old(self)@.coords(axis)[j]),
                forall|j: int|
                    i <= j < n ==> #[trigger] self@.coords(axis)[j] == old(self)@.coords(axis)[j],
                self@.dirty == old(self)@.dirty.union(
                    outside_upto(old(self)@.coords(axis), range, i as int),
                ),
            decreases n - i,
        {
            let v: i32 = self.coord(axis, i);
            if !range.holds(v) {
                let fresh: i32 = uniform_i32(&mut rng, lo, hi);
                self.relocate(axis, i, fresh);
            }
            assert(self@.dirty =~= old(self)@.dirty.union(
                outside_upto(old(self)@.coords(axis), range, i + 1),
            ));
            i = i + 1;
        }
    }

    /// Gives a random subset of the points a fresh coordinate from `lo` to
    /// `hi` on `axis` and marks them dirty. The subset is found by skips, one
    /// draw for each of its points and one more, however many points there
    /// are.
    fn scatter<F: Fn(u32, u32, u32) -> u32>(
        &mut self,
        axis: Axis,
        lo: i32,
        hi: i32,
        from: u32,
        to: u32,
        skip_of: &F,
    )
        requires
            old(self).wf(),
            lo <= hi,
            from < to,
            forall|draw: u32| skip_of.requires((draw, from, to)),
        ensures
            final(self).wf(),
            exists|draws: Seq<u32>, skips: Seq<u32>| #[trigger]
                growth_sampled(
                    old(self)@,
                    final(self)@,
                    axis,
                    lo as int,
                    hi as int,
                    *skip_of,
                    from,
                    to,
                    draws,
                    skips,
                ),
    {
        let n: usize = self.x_vec.len();
        let mut rng = entropy_rng();
        let mut sampler = GrowthSampler::new(n);
        let ghost mut draws: Seq<u32> = Seq::empty();
        let ghost mut skips: Seq<u32> = Seq::empty();
        assert(self@.dirty =~= old(self)@.dirty.union(
            Set::new(|i: u32| selected(skips, 0, n as nat).contains(i as nat)),
        ));
        loop
            invariant_except_break
                sampler.cursor() == cursor_after(skips, 0),
            invariant
                self.wf(),
                old(self).wf(),
                sampler.wf(),
                sampler.len() == n,
                n == old(self)@.len(),
                lo <= hi,
                forall|draw: u32| skip_of.requires((draw, from, to)),
                draws.len() == skips.len(),
                forall|i: int|
                    0 <= i < skips.len() ==> skip_of.ensures(
                        (draws[i], from, to),
                        #[trigger] skips[i],
                    ),
                selected(skips, 0, n as nat).len() == skips.len(),
                scattered_into(
                    old(self)@,
                    self@,
                    axis,
                    lo as int,
                    hi as int,
                    selected(skips, 0, n as nat),
                ),
            ensures
                exists|draws: Seq<u32>, skips: Seq<u32>| #[trigger]
                    growth_sampled(
                        old(self)@,
                        self@,
                        axis,
                        lo as int,
                        hi as int,
                        *skip_of,
                        from,
                        to,
                        draws,
                        skips,
                    ),
            decreases sampler.len() - sampler.cursor(),
        {
            let draw: u32 = uniform_u32(&mut rng);
            let skip: u32 = skip_of(draw, from, to);
            let ghost picked = selected(skips, 0, n as nat);
            let ghost longer = skips.push(skip);
            let ghost drawn = draws.push(draw);
            proof {
                lemma_selected_push(skips, 0, n as nat, skip);
            }
            match sampler.advance(skip) {
                Some(idx) => {
                    let ghost before = self@;
                    let fresh: i32 = uniform_i32(&mut rng, lo, hi);
                    self.relocate(axis, idx as u32, fresh);
                    proof {
                        let more = selected(longer, 0, n as nat);
                        assert(more == picked.push(idx as nat));
                        assert forall|i: u32|
                            more.contains(i as nat) <==> (picked.contains(i as nat) || i
                                == idx) by {
                            if picked.contains(i as nat) {
                                let k = picked.index_of(i as nat);
                                assert(more[k] == i as nat);
                            }
                            assert(more[picked.len() as int] == idx as nat);
                            if more.contains(i as nat) && i != idx {
                                let k = more.index_of(i as nat);
                                assert(picked[k] == i as nat);
                            }
                        }
                        assert(self@.dirty =~= old(self)@.dirty.union(
                            Set::new(|i: u32| more.contains(i as nat)),
                        ));
                        assert forall|i: int| 0 <= i < old(self)@.len() implies (more.contains(
                            i as nat,
                        ) ==> lo <= (#[trigger] self@.coords(axis)[i]) <= hi) && (!more.contains(
                            i as nat,
                        ) ==> self@.coords(axis)[i] == old(self)@.coords(axis)[i]) by {
                            assert(more.contains(i as nat) <==> (picked.contains(i as nat) || i as u32
                                == idx));
                            if i != idx {
                                assert(self@.coords(axis)[i] == before.coords(axis)[i]);
                            }
                        }
                        draws = drawn;
                        skips = longer;
                    }
                },
                None => {
                    proof {
                        assert(selected(longer, 0, n as nat) == picked);
                        assert(growth_sampled(
                            old(self)@,
                            self@,
                            axis,
                            lo as int,
                            hi as int,
                            *skip_of,
                            from,
                            to,
                            drawn,
                            longer,
                        ));
                    }
                    break ;
                },
            }
        }
    }

    /// Moves the endpoint at `edge` of the range of `axis` to `value`, and
    /// resamples points as the change of the span asks: see [`bound_moved`].
    ///
    /// Where the span grows, the points to scatter are found by skips:
    /// `skip_of` gets one uniform draw from all of `u32`, the old span and the
    /// new one, and says how many points to pass over before the next one
    /// that moves.
    pub fn move_bound<F: Fn(u32, u32, u32) -> u32>(
        &mut self,
        axis: Axis,
        edge: Edge,
        value: i32,
        skip_of: F,
    )
        requires
            old(self).wf(),
            forall|draw: u32, from: u32, to: u32| from < to ==> skip_of.requires((draw, from, to)),
        ensures
            final(self).wf(),
            bound_moved(old(self)@, final(self)@, axis, edge, value, skip_of),
    {
        let before: AxisRange = self.range(axis);
        let after: AxisRange = match edge {
            Edge::Start => AxisRange { start: value, end: before.end },
            Edge::End => AxisRange { start: before.start, end: value },
        };
        let from: i32 = match edge {
            Edge::Start => before.start,
            Edge::End => before.end,
        };
        match axis {
            Axis::X => {
                self.x_range = after;
            },
            Axis::Y => {
                self.y_range = after;
            },
        }
        let ghost moved = self@;
        let old_span: u32 = before.extent();
        let new_span: u32 = after.extent();
        if new_span < old_span {
            self.resample_outside(axis, after);
        } else if new_span > old_span {
            let lo: i32 = if value < from {
                value + 1
            } else {
                from + 1
            };
            let hi: i32 = if value < from {
                from - 1
            } else {
                value - 1
            };
            if lo <= hi {
                self.scatter(axis, lo, hi, old_span, new_span, &skip_of);
                proof {
                    let (d, k) = choose|d: Seq<u32>, k: Seq<u32>| #[trigger]
                        growth_sampled(
                            moved,
                            self@,
                            axis,
                            lo as int,
                            hi as int,
                            skip_of,
                            old_span,
                            new_span,
                            d,
                            k,
                        );
                    let range0 = old(self)@.range(axis);
                    let range1 = range0.with_endpoint(edge, value);
                    assert(growth_sampled(
                        old(self)@.with_range(axis, range1),
                        self@,
                        axis,
                        band_low(range0.endpoint(edge), value),
                        band_high(range0.endpoint(edge), value),
                        skip_of,
                        range0.span() as u32,
                        range1.span() as u32,
                        d,
                        k,
                    ));
                }
            }
        }
    }
}

/// Applies one request to the points: a move of one of the four bounds, by
/// [`InputPoints::move_bound`], or a change of length, by
/// [`InputPoints::resize`].
pub fn change_region<F: Fn(u32, u32, u32) -> u32>(
    update: RegionUpdate,
    points: &mut InputPoints,
    skip_of: F,
)
    requires
        old(points).wf(),
        forall|draw: u32, from: u32, to: u32| from < to ==> skip_of.requires((draw, from, to)),
    ensures
        final(points).wf(),
        region_changed(old(points)@, final(points)@, update, skip_of),
{
    match update {
        RegionUpdate::StartX(v) => points.move_bound(Axis::X, Edge::Start, v, skip_of),
        RegionUpdate::StartY(v) => points.move_bound(Axis::Y, Edge::Start, v, skip_of),
        RegionUpdate::EndX(v) => points.move_bound(Axis::X, Edge::End, v, skip_of),
        RegionUpdate::EndY(v) => points.move_bound(Axis::Y, Edge::End, v, skip_of),
        RegionUpdate::SetLen(n) => points.resize(n),
    }
}

} // verus!
