//! Selection of a random subset of a dense index range by skips.
//!
//! To include each of `len` indices independently with probability `p`, it is
//! enough to draw the gaps between consecutive included indices, which follow
//! a geometric distribution. The cursor here does the walking; the gaps come
//! from the caller.

use vstd::prelude::*;

verus! {

/// A cursor over the indices `0..len`.
pub struct GrowthSampler {
    cursor: usize,
    len: usize,
}

/// The indices that a sequence of skips selects from `start` on: each skip
/// passes over that many indices and selects the next, until one leaves the
/// range.
pub open spec fn selected(skips: Seq<u32>, start: nat, len: nat) -> Seq<nat>
    decreases skips.len(),
{
    if skips.len() == 0 || start + skips[0] >= len {
        Seq::empty()
    } else {
        seq![start + skips[0] as nat] + selected(
            skips.drop_first(),
            start + skips[0] as nat + 1,
            len,
        )
    }
}

impl GrowthSampler {
    /// The first index that can still be selected; `len` once the range is
    /// used up.
    pub closed spec fn cursor(&self) -> nat {
        self.cursor as nat
    }

    /// The size of the range.
    pub closed spec fn len(&self) -> nat {
        self.len as nat
    }

    /// The cursor never leaves the range by more than one step.
    pub open spec fn wf(&self) -> bool {
        self.cursor() <= self.len()
    }

    /// A cursor at the start of `0..len`.
    pub fn new(len: usize) -> (s: Self)
        ensures
            s.wf(),
            s.cursor() == 0,
            s.len() == len,
    {
        GrowthSampler { cursor: 0, len }
    }

    /// Whether no index is left to select.
    pub fn is_exhausted(&self) -> (done: bool)
        ensures
            done == (self.cursor() >= self.len()),
    {
        self.cursor >= self.len
    }

    /// Passes over `skip` indices and selects the one after them. Where that
    /// leaves the range, nothing is selected and the range is used up.
    pub fn advance(&mut self, skip: u32) -> (picked: Option<usize>)
        requires
            old(self).wf(),
        ensures
            final(self).wf(),
            final(self).len() == old(self).len(),
            old(self).cursor() + skip < old(self).len() ==> picked == Some(
                (old(self).cursor() + skip) as usize,
            ) && final(self).cursor() == old(self).cursor() + skip + 1,
            old(self).cursor() + skip >= old(self).len() ==> picked.is_none()
                && final(self).cursor() == old(self).len(),
    {
        let room: usize = self.len - self.cursor;
        if (skip as u64) < (room as u64) {
            let target: usize = self.cursor + skip as usize;
            self.cursor = target + 1;
            Some(target)
        } else {
            self.cursor = self.len;
            None
        }
    }
}

/// Where the cursor stands after each skip of `skips` selected an index:
/// behind the last of them.
pub open spec fn cursor_after(skips: Seq<u32>, start: nat) -> nat
    decreases skips.len(),
{
    if skips.len() == 0 {
        start
    } else {
        cursor_after(skips.drop_first(), start + skips[0] as nat + 1)
    }
}

/// One more skip after skips that all selected an index: it selects the
/// index that lies `next` behind the cursor, or ends the selection where that
/// leaves the range.
pub proof fn lemma_selected_push(skips: Seq<u32>, start: nat, len: nat, next: u32)
    requires
        selected(skips, start, len).len() == skips.len(),
    ensures
        cursor_after(skips.push(next), start) == cursor_after(skips, start) + next + 1,
        selected(skips.push(next), start, len) == if cursor_after(skips, start) + next < len {
            selected(skips, start, len).push(cursor_after(skips, start) + next as nat)
        } else {
            selected(skips, start, len)
        },
    decreases skips.len(),
{
    let longer = skips.push(next);
    if skips.len() == 0 {
        assert(longer.drop_first() =~= Seq::<u32>::empty());
        assert(longer[0] == next);
        assert(cursor_after(longer.drop_first(), start + next as nat + 1) == start + next + 1);
        assert(selected(longer.drop_first(), start + next as nat + 1, len) =~= Seq::<nat>::empty());
        assert(selected(longer, start, len) =~= if start + next < len {
            Seq::<nat>::empty().push(start + next as nat)
        } else {
            Seq::<nat>::empty()
        });
    } else {
        let first = start + skips[0] as nat;
        assert(longer.drop_first() =~= skips.drop_first().push(next));
        lemma_selected_ascending(skips.drop_first(), first + 1, len);
        lemma_selected_push(skips.drop_first(), first + 1, len, next);
        let rest = selected(skips.drop_first(), first + 1, len);
        let cursor = cursor_after(skips, start);
        assert(longer[0] == skips[0]);
        assert(selected(skips, start, len) =~= seq![first] + rest);
        assert(selected(longer, start, len) =~= if cursor + next < len {
            (seq![first] + rest).push(cursor + next as nat)
        } else {
            seq![first] + rest
        });
    }
}

/// The selected indices are strictly ascending and inside the range, and
/// there is at most one for each skip: the number of draws is bounded by the
/// number of selected indices plus one, whatever the size of the range.
pub proof fn lemma_selected_ascending(skips: Seq<u32>, start: nat, len: nat)
    ensures
        selected(skips, start, len).len() <= skips.len(),
        forall|i: int|
            0 <= i < selected(skips, start, len).len() ==> start <= #[trigger] selected(
                skips,
                start,
                len,
            )[i] < len,
        forall|i: int, j: int|
            0 <= i < j < selected(skips, start, len).len() ==> selected(skips, start, len)[i]
                < selected(skips, start, len)[j],
    decreases skips.len(),
{
    if skips.len() == 0 || start + skips[0] >= len {
    } else {
        let first = start + skips[0] as nat;
        let rest = selected(skips.drop_first(), first + 1, len);
        lemma_selected_ascending(skips.drop_first(), first + 1, len);
        let all = selected(skips, start, len);
        assert(all =~= seq![first] + rest);
        assert forall|i: int| 0 <= i < all.len() implies start <= #[trigger] all[i] < len by {
            if i > 0 {
                assert(all[i] == rest[i - 1]);
            }
        }
        assert forall|i: int, j: int| 0 <= i < j < all.len() implies all[i] < all[j] by {
            assert(all[j] == rest[j - 1]);
            if i > 0 {
                assert(all[i] == rest[i - 1]);
            }
        }
    }
}

} // verus!
