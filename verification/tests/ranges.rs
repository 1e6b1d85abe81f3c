use gdrivexp::ranges::{insert_by_start, missing_ranges, range_len};

#[test]
fn no_chunk_leaves_the_whole_interval() {
    assert_eq!(missing_ranges(&vec![], 10, 20), vec![(10, 20)]);
    assert_eq!(missing_ranges(&vec![], 0, 0), vec![(0, 0)]);
}

#[test]
fn an_inverted_interval_has_no_gap() {
    assert_eq!(missing_ranges(&vec![], 20, 10), vec![]);
    assert_eq!(missing_ranges(&vec![(0, 100)], 20, 10), vec![]);
}

#[test]
fn a_chunk_in_the_middle_leaves_two_gaps() {
    assert_eq!(missing_ranges(&vec![(5, 9)], 0, 20), vec![(0, 4), (10, 20)]);
}

#[test]
fn chunks_at_the_borders_leave_the_middle() {
    assert_eq!(missing_ranges(&vec![(0, 4), (16, 30)], 0, 20), vec![(5, 15)]);
}

#[test]
fn overlapping_and_touching_chunks_count_as_their_union() {
    assert_eq!(missing_ranges(&vec![(0, 10), (5, 12), (13, 15)], 0, 20), vec![(16, 20)]);
    assert_eq!(missing_ranges(&vec![(2, 30), (3, 4)], 0, 40), vec![(0, 1), (31, 40)]);
}

#[test]
fn chunks_outside_the_interval_do_not_count() {
    assert_eq!(missing_ranges(&vec![(0, 4), (50, 60)], 10, 20), vec![(10, 20)]);
}

#[test]
fn a_covered_interval_has_no_gap() {
    assert_eq!(missing_ranges(&vec![(0, 100)], 10, 20), vec![]);
    assert_eq!(missing_ranges(&vec![(10, 14), (15, 20)], 10, 20), vec![]);
}

#[test]
fn the_greatest_offsets_do_not_overflow() {
    let max = u64::MAX;
    assert_eq!(missing_ranges(&vec![(max - 5, max)], max - 10, max), vec![(max - 10, max - 6)]);
    assert_eq!(missing_ranges(&vec![(0, max)], 0, max), vec![]);
    assert_eq!(missing_ranges(&vec![], 0, max), vec![(0, max)]);
}

#[test]
fn ranges_are_inserted_by_their_start() {
    let mut ranges = vec![(0, 1), (10, 11)];
    insert_by_start(&mut ranges, (5, 6));
    assert_eq!(ranges, vec![(0, 1), (5, 6), (10, 11)]);
    insert_by_start(&mut ranges, (20, 21));
    assert_eq!(ranges, vec![(0, 1), (5, 6), (10, 11), (20, 21)]);
    insert_by_start(&mut ranges, (0, 9));
    assert_eq!(ranges.len(), 5);
    assert_eq!(ranges[0].0, 0);
    assert_eq!(ranges[1].0, 0);
}

#[test]
fn a_range_has_as_many_bytes_as_offsets() {
    assert_eq!(range_len((0, 0)), 1);
    assert_eq!(range_len((8_000_000, 8_065_535)), 65_536);
    assert_eq!(range_len((5, 4)), 0);
    assert_eq!(range_len((0, u32::MAX as u64 - 1)), u32::MAX);
    assert_eq!(range_len((0, u64::MAX)), u32::MAX);
    assert_eq!(range_len((10, 10 + u32::MAX as u64 - 2)), u32::MAX - 1);
}
