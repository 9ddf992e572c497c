use ranges::{join_ranges, Order, Range, Ranges, RangesIterator};

fn runs(numbers: Vec<i64>) -> Vec<Range> {
    numbers.ranges().collect_ranges()
}

fn pairs(ranges: &[Range]) -> Vec<(i64, i64)> {
    ranges.iter().map(|r| (r.start(), r.end())).collect()
}

fn expand(ranges: &[Range]) -> Vec<i64> {
    ranges.iter().flat_map(|r| r.into_iter()).collect()
}

#[test]
fn worked_example() {
    let found = runs(vec![1, 2, 3, 6, 7, 9, 9, 9, 11, 20, 21, 22, 24, 23, 22]);
    assert_eq!(
        pairs(&found),
        vec![(1, 3), (6, 7), (9, 9), (9, 9), (9, 9), (11, 11), (20, 22), (24, 22)]
    );
}

#[test]
fn worked_example_expands_back() {
    let numbers = vec![1, 2, 3, 6, 7, 9, 9, 9, 11, 20, 21, 22, 24, 23, 22];
    assert_eq!(expand(&runs(numbers.clone())), numbers);
}

#[test]
fn worked_example_text() {
    let found = runs(vec![1, 2, 3, 6, 7, 9, 9, 9, 11, 20, 21, 22, 24, 23, 22]);
    assert_eq!(join_ranges(&found), "{1..3} {6..7} 9 9 9 11 {20..22} {24..22}");
}

#[test]
fn empty_input() {
    assert!(runs(vec![]).is_empty());
    assert_eq!(join_ranges(&vec![]), "");
}

#[test]
fn all_equal_values_are_singletons() {
    let found = runs(vec![4, 4, 4, 4]);
    assert_eq!(pairs(&found), vec![(4, 4), (4, 4), (4, 4), (4, 4)]);
}

#[test]
fn ascending_is_one_range() {
    assert_eq!(pairs(&runs(vec![-2, -1, 0, 1, 2])), vec![(-2, 2)]);
}

#[test]
fn descending_is_one_range() {
    assert_eq!(pairs(&runs(vec![10, 9, 8])), vec![(10, 8)]);
}

#[test]
fn single_element() {
    assert_eq!(pairs(&runs(vec![5])), vec![(5, 5)]);
}

#[test]
fn reversal_at_peak() {
    assert_eq!(pairs(&runs(vec![1, 2, 1])), vec![(1, 2), (1, 1)]);
}

#[test]
fn reversal_at_valley() {
    assert_eq!(pairs(&runs(vec![3, 2, 1, 2, 3])), vec![(3, 1), (2, 3)]);
}

#[test]
fn pair_then_break_then_singletons() {
    assert_eq!(pairs(&runs(vec![7, 9, 11])), vec![(7, 7), (9, 9), (11, 11)]);
}

#[test]
fn consecutive_ranges_do_not_merge() {
    let found = runs(vec![5, 6, 6, 7, 3, 2, 2, 8, 0, -1, -2, 4]);
    for w in found.windows(2) {
        let (r, next) = (w[0], w[1].start());
        let continues = if r.start() == r.end() {
            next == r.end() + 1 || next == r.end() - 1
        } else if r.start() < r.end() {
            next == r.end() + 1
        } else {
            next == r.end() - 1
        };
        assert!(!continues);
    }
    assert_eq!(
        pairs(&found),
        vec![(5, 6), (6, 7), (3, 2), (2, 2), (8, 8), (0, -2), (4, 4)]
    );
}

#[test]
fn no_run_crosses_the_bounds_of_i64() {
    let found = runs(vec![i64::MAX - 1, i64::MAX, i64::MIN, i64::MIN + 1]);
    assert_eq!(
        pairs(&found),
        vec![(i64::MAX - 1, i64::MAX), (i64::MIN, i64::MIN + 1)]
    );
}

#[test]
fn next_pulls_one_range_at_a_time() {
    let mut it = RangesIterator::new(vec![1, 2, 1]);
    let first = it.next().unwrap();
    assert_eq!((first.start(), first.end()), (1, 2));
    let second = it.next().unwrap();
    assert_eq!((second.start(), second.end()), (1, 1));
    assert!(it.next().is_none());
    assert!(it.next().is_none());
}

#[test]
fn next_on_empty_source() {
    let mut it = RangesIterator::new(vec![]);
    assert!(it.next().is_none());
    assert!(it.collect_ranges().is_empty());
}

#[test]
fn collect_after_partial_pull() {
    let mut it = vec![1, 2, 3, 6, 7].ranges();
    let first = it.next().unwrap();
    assert_eq!((first.start(), first.end()), (1, 3));
    assert_eq!(pairs(&it.collect_ranges()), vec![(6, 7)]);
    assert!(it.next().is_none());
}

#[test]
fn order_of_pairs() {
    assert_eq!(Order::new(3, 4), Some(Order::Ascending));
    assert_eq!(Order::new(3, 2), Some(Order::Descending));
    assert_eq!(Order::new(3, 3), None);
    assert_eq!(Order::new(3, 5), None);
    assert_eq!(Order::new(i64::MAX, i64::MIN), None);
    assert_eq!(Order::new(i64::MIN, i64::MAX), None);
    assert_eq!(Order::new(i64::MAX, i64::MAX - 1), Some(Order::Descending));
}

#[test]
fn range_expands_upward() {
    assert_eq!(Range::new(3, 6).into_iter(), vec![3, 4, 5, 6]);
}

#[test]
fn range_expands_downward() {
    assert_eq!(Range::new(24, 22).into_iter(), vec![24, 23, 22]);
}

#[test]
fn singleton_range_expands_to_one_value() {
    assert_eq!(Range::new(-9, -9).into_iter(), vec![-9]);
}

#[test]
fn range_expands_at_the_top_of_i64() {
    assert_eq!(
        Range::new(i64::MAX - 2, i64::MAX).into_iter(),
        vec![i64::MAX - 2, i64::MAX - 1, i64::MAX]
    );
    assert_eq!(
        Range::new(i64::MIN + 1, i64::MIN).into_iter(),
        vec![i64::MIN + 1, i64::MIN]
    );
}

#[test]
fn range_text() {
    assert_eq!(Range::new(9, 9).to_string(), "9");
    assert_eq!(Range::new(20, 22).to_string(), "{20..22}");
    assert_eq!(Range::new(24, 22).to_string(), "{24..22}");
    assert_eq!(Range::new(-3, -1).to_string(), "{-3..-1}");
    assert_eq!(Range::new(0, 0).to_string(), "0");
    assert_eq!(Range::new(105, 105).to_string(), "105");
}

#[test]
fn range_text_at_the_bounds_of_i64() {
    assert_eq!(Range::new(i64::MIN, i64::MIN).to_string(), "-9223372036854775808");
    assert_eq!(
        Range::new(i64::MAX, i64::MAX - 1).to_string(),
        "{9223372036854775807..9223372036854775806}"
    );
}

#[test]
fn half_open_range() {
    let r = Range::from_half_open(1, 4).unwrap();
    assert_eq!((r.start(), r.end()), (1, 3));
    assert_eq!(r.into_iter(), vec![1, 2, 3]);
    assert!(Range::from_half_open(0, i64::MIN).is_none());
}

#[test]
fn range_fields_and_equality() {
    let r = Range::new(6, 7);
    assert_eq!(r, Range { start: 6, end: 7 });
    assert_ne!(r, Range::new(7, 6));
}
