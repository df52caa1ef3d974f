use vstd::prelude::*;

verus! {

/// A running sum of column widths compared against a limit: exact while it is at most the
/// limit, only known to be past it once it is larger.
#[derive(Clone, Copy)]
pub struct WidthSum {
    pub val: usize,
    pub over: bool,
}

impl WidthSum {
    /// Whether this holds the sum `total` against the limit `limit`.
    pub open spec fn holds(self, total: int, limit: usize) -> bool {
        if total <= limit {
            !self.over && self.val == total
        } else {
            self.over
        }
    }

    /// The empty sum.
    pub fn zero() -> (r: WidthSum)
        ensures
            forall|limit: usize| #[trigger] r.holds(0, limit),
    {
        WidthSum { val: 0, over: false }
    }

    /// The sum with `w` added.
    pub fn add(self, w: usize, limit: usize, Ghost(total): Ghost<int>) -> (r: WidthSum)
        requires
            self.holds(total, limit),
            total >= 0,
        ensures
            r.holds(total + w, limit),
    {
        if self.over || w > limit - self.val {
            WidthSum { val: limit, over: true }
        } else {
            WidthSum { val: self.val + w, over: false }
        }
    }

    /// Whether the sum plus `w` is past the limit.
    pub fn exceeds_with(self, w: usize, limit: usize, Ghost(total): Ghost<int>) -> (r: bool)
        requires
            self.holds(total, limit),
        ensures
            r == (total + w > limit),
    {
        self.over || w > limit - self.val
    }

    /// Whether the sum has reached the limit.
    pub fn reached(self, limit: usize, Ghost(total): Ghost<int>) -> (r: bool)
        requires
            self.holds(total, limit),
        ensures
            r == (total >= limit),
    {
        self.over || self.val == limit
    }
}

} // verus!
