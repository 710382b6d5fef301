//! The selection controller: it tracks which row of the asset list is
//! highlighted and keeps that index valid across additions, removals and
//! circular navigation.

use vstd::prelude::*;
use vstd::arithmetic::div_mod::{lemma_add_mod_noop, lemma_mod_self_0, lemma_small_mod};

verus! {

/// What navigating one row down does to the selection: a no-op on an empty
/// list, otherwise one step forward, wrapping past the last row to row 0.
pub open spec fn nav_down_spec(sel: int, count: int) -> int {
    if count == 0 {
        sel
    } else if sel + 1 >= count {
        0
    } else {
        sel + 1
    }
}

/// What navigating one row up does to the selection: a no-op on an empty
/// list, otherwise one step back, wrapping before row 0 to the last row.
pub open spec fn nav_up_spec(sel: int, count: int) -> int {
    if count == 0 {
        sel
    } else if sel > 0 {
        sel - 1
    } else {
        count - 1
    }
}

/// The selection after `k` navigate-down steps on a list of `count` rows.
pub open spec fn iterate_down(sel: int, count: int, k: nat) -> int
    decreases k,
{
    if k == 0 {
        sel
    } else {
        nav_down_spec(iterate_down(sel, count, (k - 1) as nat), count)
    }
}

/// The highlighted row of the asset list.
pub struct Selection {
    pub index: usize,
}

impl Selection {
    /// Selection starts at row 0.
    pub fn initial() -> (s: Selection)
        ensures
            s.index == 0,
    {
        Selection { index: 0 }
    }

    /// Appending an asset does not move the selection.
    pub fn on_add(&mut self)
        ensures
            final(self).index == old(self).index,
    {
    }

    /// After a removal at `removed`, the selection moves to the previous
    /// row, or stays at row 0 when the first row was removed.
    pub fn on_remove(&mut self, removed: usize)
        ensures
            final(self).index == if removed > 0 { removed - 1 } else { 0int },
    {
        if removed > 0 {
            self.index = removed - 1;
        } else {
            self.index = 0;
        }
    }

    /// Navigate one row down, wrapping circularly; a no-op on an empty list.
    pub fn on_navigate_down(&mut self, count: usize)
        ensures
            final(self).index == nav_down_spec(old(self).index as int, count as int),
    {
        if count == 0 {
            return ;
        }
        if self.index >= count - 1 {
            self.index = 0;
        } else {
            self.index = self.index + 1;
        }
    }

    /// Navigate one row up, wrapping circularly; a no-op on an empty list.
    pub fn on_navigate_up(&mut self, count: usize)
        ensures
            final(self).index == nav_up_spec(old(self).index as int, count as int),
    {
        if count == 0 {
            return ;
        }
        if self.index > 0 {
            self.index = self.index - 1;
        } else {
            self.index = count - 1;
        }
    }
}

/// After `k` navigate-down steps from a valid selection, the selection is
/// the start shifted by `k`, modulo the row count.
proof fn lemma_iterate_down_mod(sel: int, count: int, k: nat)
    requires
        1 <= count,
        0 <= sel < count,
    ensures
        iterate_down(sel, count, k) == (sel + k) % count,
    decreases k,
{
    if k == 0 {
        lemma_small_mod(sel as nat, count as nat);
    } else {
        lemma_iterate_down_mod(sel, count, (k - 1) as nat);
        let prev = (sel + k - 1) % count;
        assert(0 <= prev < count);
        lemma_add_mod_noop(sel + k - 1, 1, count);
        if count == 1 {
            lemma_small_mod(0nat, 1nat);
            lemma_mod_self_0(count);
        } else {
            lemma_small_mod(1nat, count as nat);
            if prev + 1 == count {
                lemma_mod_self_0(count);
            } else {
                lemma_small_mod((prev + 1) as nat, count as nat);
            }
        }
    }
}

/// Law: on a list of `count` rows, repeating navigate-down `count` times
/// returns the selection to where it started.
pub proof fn lemma_nav_down_cycle(sel: int, count: int)
    requires
        1 <= count,
        0 <= sel < count,
    ensures
        iterate_down(sel, count, count as nat) == sel,
{
    lemma_iterate_down_mod(sel, count, count as nat);
    lemma_add_mod_noop(sel, count, count);
    lemma_mod_self_0(count);
    lemma_small_mod(sel as nat, count as nat);
}

/// Law: a valid selection stays a valid row of the collection it acts on:
/// navigation keeps it within the same `count` rows, and after a removal
/// the moved selection is a valid row of the `count - 1` remaining rows
/// whenever any remain.
pub proof fn lemma_selection_stays_valid(sel: int, count: int)
    requires
        0 <= sel < count,
    ensures
        0 <= nav_down_spec(sel, count) < count,
        0 <= nav_up_spec(sel, count) < count,
        count > 1 ==> 0 <= (if sel > 0 {
            sel - 1
        } else {
            0int
        }) < count - 1,
{
}

/// Law: navigate-up undoes navigate-down, and navigate-down undoes
/// navigate-up, on a list whose size does not change in between.
pub proof fn lemma_nav_up_down_identity(sel: int, count: int)
    requires
        0 <= sel < count,
    ensures
        nav_up_spec(nav_down_spec(sel, count), count) == sel,
        nav_down_spec(nav_up_spec(sel, count), count) == sel,
{
}

} // verus!
