use factorial::{chunk_size, partition, Range};

fn span(low: u128, high: u128) -> Range {
    Range::Span { low, high }
}

/// How often each of `0..=n + 1` is a factor of one of the ranges.
fn coverage(ranges: &[Range], n: u128) -> Vec<u32> {
    let mut seen = vec![0u32; (n + 2) as usize];
    for range in ranges {
        match *range {
            Range::Empty => {}
            Range::Span { low, high } => {
                assert!(high <= n);
                let mut x = low;
                while x <= high {
                    seen[x as usize] += 1;
                    x += 1;
                }
            }
        }
    }
    seen
}

#[test]
fn chunk_size_rounds_up() {
    assert_eq!(chunk_size(10, 3), 4);
    assert_eq!(chunk_size(9, 3), 3);
    assert_eq!(chunk_size(5, 2), 3);
    assert_eq!(chunk_size(20, 1), 20);
    assert_eq!(chunk_size(25, 8), 4);
    assert_eq!(chunk_size(2, 8), 1);
    assert_eq!(chunk_size(1, 8), 1);
    assert_eq!(chunk_size(0, 4), 0);
}

#[test]
fn chunk_size_at_the_limits() {
    assert_eq!(chunk_size(u128::MAX, 1), u128::MAX);
    assert_eq!(chunk_size(u128::MAX, 2), 1u128 << 127);
    assert_eq!(chunk_size(u128::MAX, 3), 113427455640312821154458202477256070485);
    assert_eq!(chunk_size(u128::MAX, 4), 1u128 << 126);
    assert_eq!(chunk_size(u128::MAX - 1, 2), (1u128 << 127) - 1);
}

#[test]
fn partition_of_ten_on_three_slots() {
    assert_eq!(partition(10, 3), vec![span(7, 10), span(3, 6), span(1, 2)]);
}

#[test]
fn partition_of_five_on_two_slots() {
    assert_eq!(partition(5, 2), vec![span(3, 5), span(1, 2)]);
}

#[test]
fn partition_on_one_slot_is_one_range() {
    assert_eq!(partition(20, 1), vec![span(1, 20)]);
    assert_eq!(partition(2, 1), vec![span(1, 2)]);
}

#[test]
fn partition_may_end_in_a_single_factor() {
    assert_eq!(partition(3, 2), vec![span(2, 3), span(1, 1)]);
    assert_eq!(partition(9, 4), vec![span(7, 9), span(4, 6), span(1, 3)]);
}

#[test]
fn partition_with_more_slots_than_factors() {
    assert_eq!(partition(2, 8), vec![span(2, 2), span(1, 1)]);
    assert_eq!(partition(3, 64), vec![span(3, 3), span(2, 2), span(1, 1)]);
}

#[test]
fn partition_of_degenerate_inputs_is_empty() {
    for slots in [1usize, 2, 3, 4, 8, 64] {
        assert_eq!(partition(0, slots), vec![]);
        assert_eq!(partition(1, slots), vec![]);
    }
}

#[test]
fn partition_of_the_largest_input() {
    let half = 1u128 << 127;
    assert_eq!(partition(u128::MAX, 2), vec![span(half, u128::MAX), span(1, half - 1)]);
    assert_eq!(partition(u128::MAX, 1), vec![span(1, u128::MAX)]);
}

#[test]
fn partition_covers_each_factor_exactly_once() {
    for n in 2u128..=80 {
        for slots in 1usize..=90 {
            let ranges = partition(n, slots);
            let seen = coverage(&ranges, n);
            assert_eq!(seen[0], 0, "n = {}, slots = {}", n, slots);
            for x in 1..=n {
                assert_eq!(seen[x as usize], 1, "n = {}, slots = {}, x = {}", n, slots, x);
            }
            assert_eq!(seen[(n + 1) as usize], 0);
        }
    }
}

#[test]
fn partition_never_exceeds_the_slots() {
    for n in 0u128..=80 {
        for slots in 1usize..=90 {
            let ranges = partition(n, slots);
            assert!(ranges.len() <= slots, "n = {}, slots = {}", n, slots);
            for range in &ranges {
                assert!(range.is_valid());
                assert!(matches!(range, Range::Span { .. }));
            }
        }
    }
}

#[test]
fn partition_runs_from_the_top_down_without_gaps() {
    for n in 2u128..=50 {
        for slots in 1usize..=12 {
            let size = chunk_size(n, slots);
            let ranges = partition(n, slots);
            let mut top = n;
            for (i, range) in ranges.iter().enumerate() {
                match *range {
                    Range::Span { low, high } => {
                        assert_eq!(high, top);
                        if i + 1 < ranges.len() {
                            assert_eq!(high - low + 1, size);
                        } else {
                            assert_eq!(low, 1);
                            assert!(high - low + 1 <= size);
                        }
                        top = low - 1;
                    }
                    Range::Empty => panic!("an empty range was dispatched"),
                }
            }
            assert_eq!(top, 0);
        }
    }
}

#[test]
fn range_new_accepts_ordered_bounds() {
    assert_eq!(Range::new(1, 1), Ok(span(1, 1)));
    assert_eq!(Range::new(3, 9), Ok(span(3, 9)));
    assert_eq!(Range::new(1, u128::MAX), Ok(span(1, u128::MAX)));
}

#[test]
fn range_new_rejects_bad_bounds() {
    assert_eq!(Range::new(5, 3), Err(factorial::Failure::InvalidRange));
    assert_eq!(Range::new(0, 3), Err(factorial::Failure::InvalidRange));
    assert_eq!(Range::new(0, 0), Err(factorial::Failure::InvalidRange));
    assert_eq!(Range::new(1, 0), Err(factorial::Failure::InvalidRange));
}

#[test]
fn range_validity() {
    assert!(Range::Empty.is_valid());
    assert!(span(1, 1).is_valid());
    assert!(span(2, 7).is_valid());
    assert!(!span(7, 2).is_valid());
    assert!(!span(0, 2).is_valid());
    assert!(!span(1, 0).is_valid());
}
