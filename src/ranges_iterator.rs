use vstd::prelude::*;
use crate::order::{Order, order_of};
use crate::range::Range;
use crate::runs::{first_run, lemma_run_len_bounds, lemma_run_len_exact, run_len, runs_of};

verus! {

/// Cuts a sequence of integers into its maximal runs, one run per call of `next`.
///
/// The iterator owns its source and keeps one element of lookahead: the element
/// that ended the last run is held back as the start of the next one.
pub struct RangesIterator {
    numbers: Vec<i64>,
    pos: usize,
    start: Option<i64>,
}

impl RangesIterator {
    /// The held-back element, if any, is the last one taken from the source.
    pub closed spec fn wf(&self) -> bool {
        &&& self.pos <= self.numbers.len()
        &&& self.start matches Some(x) ==> self.pos >= 1 && x == self.numbers@[self.pos - 1]
    }

    /// The elements not yet reported in a range: the held-back one, then those
    /// still in the source.
    pub closed spec fn rest(&self) -> Seq<i64> {
        match self.start {
            Some(_) => self.numbers@.skip(self.pos - 1),
            None => self.numbers@.skip(self.pos as int),
        }
    }

    /// An iterator over the runs of `numbers`.
    pub fn new(numbers: Vec<i64>) -> (r: RangesIterator)
        ensures
            r.wf(),
            r.rest() == numbers@,
    {
        let r = RangesIterator { numbers, pos: 0, start: None };
        assert(r.rest() =~= r.numbers@);
        r
    }

    /// The next maximal run, or `None` once every element has been reported.
    ///
    /// A run closes at the first element that does not continue it; that element
    /// is kept as the start of the following run, so no element is lost or repeated.
    pub fn next(&mut self) -> (r: Option<Range>)
        requires
            old(self).wf(),
        ensures
            final(self).wf(),
            r is None <==> old(self).rest().len() == 0,
            r is None ==> final(self).rest().len() == 0,
            r matches Some(range) ==> range == first_run(old(self).rest()) && final(self).rest()
                == old(self).rest().skip(run_len(old(self).rest()) as int),
    {
        let ghost b: int = if self.start is Some {
            self.pos - 1
        } else {
            self.pos as int
        };
        let ghost s0 = self.rest();
        let ghost numbers = self.numbers@;
        let mut order: Option<Order> = None;
        let mut end: Option<i64> = None;
        let len = self.numbers.len();
        while self.pos < len
            invariant
                self.numbers@ == numbers,
                len == numbers.len(),
                0 <= b <= self.pos <= len,
                s0 == numbers.skip(b),
                s0 == old(self).rest(),
                self.start is None <==> self.pos == b,
                self.start matches Some(x) ==> x == s0[0],
                self.pos - b <= 1 ==> end is None && order is None,
                self.pos - b >= 2 ==> end == Some(s0[self.pos - b - 1]) && order is Some
                    && order == order_of(s0[0] as int, s0[1] as int),
                order matches Some(o) ==> forall|i: int|
                    1 <= i < self.pos - b ==> #[trigger] s0[i] as int == s0[i - 1] as int
                        + o.step(),
            decreases len - self.pos,
        {
            let next = self.numbers[self.pos];
            assert(next == s0[self.pos - b]);
            self.pos = self.pos + 1;
            match self.start {
                None => {
                    self.start = Some(next);
                },
                Some(start) => {
                    let last = match end {
                        Some(e) => e,
                        None => start,
                    };
                    match order {
                        None => match Order::new(last, next) {
                            Some(new_order) => {
                                order = Some(new_order);
                                end = Some(next);
                            },
                            None => {
                                self.start = Some(next);
                                proof {
                                    lemma_run_len_exact(s0, order, 1);
                                    assert(self.rest() =~= s0.skip(1));
                                }
                                return Some(Range::new(start, last));
                            },
                        },
                        Some(o) => {
                            let continues = match Order::new(last, next) {
                                Some(new_order) => new_order == o,
                                None => false,
                            };
                            if continues {
                                end = Some(next);
                            } else {
                                self.start = Some(next);
                                proof {
                                    let k = self.pos - 1 - b;
                                    lemma_run_len_exact(s0, order, k);
                                    assert(self.rest() =~= s0.skip(k));
                                }
                                return Some(Range::new(start, last));
                            }
                        },
                    }
                },
            }
        }
        match self.start {
            None => {
                assert(s0.len() == 0);
                None
            },
            Some(start) => {
                self.start = None;
                proof {
                    let k = len - b;
                    lemma_run_len_exact(s0, order, k);
                    assert(self.rest() =~= s0.skip(k));
                }
                match end {
                    None => Some(Range::new(start, start)),
                    Some(end) => Some(Range::new(start, end)),
                }
            },
        }
    }
    /// Every run not yet reported, in order; the iterator is exhausted afterwards.
    pub fn collect_ranges(&mut self) -> (r: Vec<Range>)
        requires
            old(self).wf(),
        ensures
            final(self).wf(),
            final(self).rest().len() == 0,
            r@ == runs_of(old(self).rest()),
    {
        let mut out: Vec<Range> = Vec::new();
        loop
            invariant
                self.wf(),
                out@ + runs_of(self.rest()) == runs_of(old(self).rest()),
            ensures
                self.wf(),
                self.rest().len() == 0,
                out@ == runs_of(old(self).rest()),
            decreases self.rest().len(),
        {
            let ghost before = self.rest();
            match self.next() {
                None => {
                    assert(runs_of(before) =~= seq![]);
                    assert(out@ =~= out@ + runs_of(before));
                    break;
                },
                Some(range) => {
                    proof {
                        lemma_run_len_bounds(before);
                    }
                    out.push(range);
                    assert(out@ + runs_of(self.rest()) =~= runs_of(old(self).rest()));
                },
            }
        }
        out
    }
}

} // verus!
