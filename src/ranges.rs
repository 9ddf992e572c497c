use vstd::prelude::*;
use crate::ranges_iterator::RangesIterator;

verus! {

/// A finite source of integers that can be cut into its maximal runs.
pub trait Ranges: Sized {
    /// The integers of the source, in order.
    spec fn elements(&self) -> Seq<i64>;

    /// An iterator over the runs of the source's integers.
    fn ranges(self) -> (r: RangesIterator)
        ensures
            r.wf(),
            r.rest() == self.elements(),
    ;
}

impl Ranges for Vec<i64> {
    open spec fn elements(&self) -> Seq<i64> {
        self@
    }

    fn ranges(self) -> (r: RangesIterator) {
        RangesIterator::new(self)
    }
}

} // verus!
