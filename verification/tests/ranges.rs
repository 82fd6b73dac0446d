use scan_dwarf::range::{complement, coverage_weight, sort_by_start, CodeRange};

fn r(start: u64, end: u64) -> CodeRange {
    CodeRange { start, end }
}

#[test]
fn shift_moves_both_bounds() {
    assert_eq!(r(0x120, 0x140).shift(0x100), r(0x20, 0x40));
    assert_eq!(r(7, 7).shift(7), r(0, 0));
    assert_eq!(r(5, 9).shift(0), r(5, 9));
}

#[test]
fn length_is_the_difference() {
    assert_eq!(r(0x100, 0x140).length(), 0x40);
    assert_eq!(r(3, 3).length(), 0);
    assert_eq!(r(9, 3).length(), 0);
    assert_eq!(r(0, u64::MAX).length(), u64::MAX);
}

#[test]
fn complement_of_nothing_is_the_whole() {
    assert_eq!(complement(&vec![], 64), vec![r(0, 64)]);
    assert_eq!(complement(&vec![], 0), vec![r(0, 0)]);
}

#[test]
fn complement_finds_the_inner_gap() {
    let valid = vec![r(0, 0x10), r(0x20, 0x40)];
    assert_eq!(complement(&valid, 0x40), vec![r(0x10, 0x20)]);
}

#[test]
fn complement_leading_gap_ends_one_below_the_first_start() {
    assert_eq!(complement(&vec![r(4, 10)], 10), vec![r(0, 3)]);
    assert_eq!(complement(&vec![r(1, 10)], 10), vec![r(0, 0)]);
    assert_eq!(complement(&vec![r(0, 10)], 10), vec![]);
}

#[test]
fn complement_trailing_gap_starts_one_above_the_last_end() {
    assert_eq!(complement(&vec![r(0, 4)], 10), vec![r(5, 10)]);
    // One above the end is the bound itself: no gap.
    assert_eq!(complement(&vec![r(0, 9)], 10), vec![]);
    assert_eq!(complement(&vec![r(0, 8)], 10), vec![r(9, 10)]);
}

#[test]
fn complement_all_three_kinds_of_gap() {
    let valid = vec![r(2, 5), r(5, 7), r(9, 12)];
    assert_eq!(complement(&valid, 20), vec![r(0, 1), r(7, 9), r(13, 20)]);
}

#[test]
fn complement_adjacent_ranges_leave_no_gap() {
    assert_eq!(complement(&vec![r(0, 5), r(5, 10)], 10), vec![]);
}

#[test]
fn complement_at_the_top_of_the_address_space() {
    assert_eq!(complement(&vec![r(0, u64::MAX)], u64::MAX), vec![]);
    assert_eq!(complement(&vec![r(u64::MAX, u64::MAX)], u64::MAX), vec![r(0, u64::MAX - 1)]);
}

#[test]
fn complement_is_not_its_own_inverse() {
    let valid = vec![r(2, 5)];
    let gaps = complement(&valid, 10);
    assert_eq!(gaps, vec![r(0, 1), r(6, 10)]);
    let back = complement(&gaps, 10);
    assert_eq!(back, vec![r(1, 6)]);
    assert_ne!(back, valid);
}

#[test]
fn ranges_and_gaps_add_up_to_the_length() {
    let valid = vec![r(2, 5), r(9, 12)];
    let gaps = complement(&valid, 20);
    let total = |v: &Vec<CodeRange>| v.iter().map(|x| x.end - x.start).sum::<u64>();
    let sum = total(&valid) + total(&gaps);
    assert!(sum <= 20 && 20 <= sum + 2);
    assert_eq!(sum, 18);
    // No address is in a range and in a gap.
    for a in 0..20u64 {
        let in_valid = valid.iter().any(|x| x.start <= a && a < x.end);
        let in_gap = gaps.iter().any(|x| x.start <= a && a < x.end);
        assert!(!(in_valid && in_gap));
        assert!(in_valid || in_gap || a == 1 || a == 12);
    }
}

#[test]
fn sort_orders_by_start() {
    let v = vec![r(0x20, 0x40), r(0, 0x10), r(0x10, 0x18)];
    assert_eq!(sort_by_start(&v), vec![r(0, 0x10), r(0x10, 0x18), r(0x20, 0x40)]);
    assert_eq!(sort_by_start(&vec![]), vec![]);
}

#[test]
fn sort_keeps_the_order_of_equal_starts() {
    let v = vec![r(5, 9), r(1, 2), r(5, 6), r(5, 7)];
    assert_eq!(sort_by_start(&v), vec![r(1, 2), r(5, 9), r(5, 6), r(5, 7)]);
}

#[test]
fn weight_counts_an_empty_range_as_one() {
    assert_eq!(coverage_weight(&vec![]), 0);
    assert_eq!(coverage_weight(&vec![r(0, 0x10), r(0x20, 0x40)]), 48);
    assert_eq!(coverage_weight(&vec![r(7, 7)]), 1);
    assert_eq!(coverage_weight(&vec![r(7, 8)]), 1);
    assert_eq!(coverage_weight(&vec![r(7, 9), r(9, 9)]), 3);
    assert_eq!(coverage_weight(&vec![r(9, 7)]), 1);
}

#[test]
fn weight_does_not_overflow() {
    let v = vec![r(0, u64::MAX), r(0, u64::MAX)];
    assert_eq!(coverage_weight(&v), 2 * (u64::MAX as u128));
}
