use vstd::prelude::*;

verus! {

/// Direction of a run: each element is one more, or one less, than the one before.
#[derive(Clone, Copy, Debug, PartialEq, Eq, Structural)]
pub enum Order {
    Ascending,
    Descending,
}

/// The direction in which `next` continues a run that currently ends at `last`, if any.
pub open spec fn order_of(last: int, next: int) -> Option<Order> {
    if next == last + 1 {
        Some(Order::Ascending)
    } else if next == last - 1 {
        Some(Order::Descending)
    } else {
        None
    }
}

impl Order {
    /// The difference between two successive elements of a run in this direction.
    pub open spec fn step(self) -> int {
        match self {
            Order::Ascending => 1,
            Order::Descending => -1,
        }
    }

    /// Classifies the pair `(start, next)`: `Ascending` when `next == start + 1`,
    /// `Descending` when `next == start - 1`, and `None` otherwise.
    ///
    /// The comparison is made over the integers: at the bounds of `i64` there is no
    /// successor of `i64::MAX` and no predecessor of `i64::MIN`, so no run continues
    /// past them, and nothing overflows.
    pub fn new(start: i64, next: i64) -> (r: Option<Order>)
        ensures
            r == order_of(start as int, next as int),
    {
        if start < i64::MAX && next == start + 1 {
            Some(Order::Ascending)
        } else if start > i64::MIN && next == start - 1 {
            Some(Order::Descending)
        } else {
            None
        }
    }
}

} // verus!
