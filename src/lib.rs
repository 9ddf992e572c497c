//! Compacts a sequence of integers into maximal runs whose successive elements
//! differ by exactly +1 or exactly -1, each run reported as a closed `Range`.

pub mod order;
pub mod range;
pub mod ranges;
pub mod ranges_iterator;
pub mod runs;

pub use order::Order;
pub use range::{join_ranges, Range};
pub use ranges::Ranges;
pub use ranges_iterator::RangesIterator;
