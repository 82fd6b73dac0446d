use scan_dwarf::expr::{Encoding, LocationOp};
use scan_dwarf::frame_base::{
    frame_register, loclist_as_offsets, Architecture, BaseOffset, FrameBaseAttr, FrameBaseError,
    LocationEntry,
};
use scan_dwarf::range::CodeRange;

fn enc() -> Encoding {
    Encoding { address_size: 8, dwarf64: false, version: 4, big_endian: false }
}

fn r(start: u64, end: u64) -> CodeRange {
    CodeRange { start, end }
}

fn base(valid: Vec<CodeRange>, register: u16, offset: i64) -> BaseOffset {
    BaseOffset { valid, offset, register }
}

fn entry(start: u64, end: u64, expression: Vec<u8>) -> LocationEntry {
    LocationEntry { range: r(start, end), expression }
}

#[test]
fn frame_register_per_architecture() {
    assert_eq!(frame_register(Architecture::X86_64), Some(6));
    assert_eq!(frame_register(Architecture::Aarch64), Some(31));
    assert_eq!(frame_register(Architecture::Other), None);
}

#[test]
fn from_operation_takes_one_register_offset() {
    let op = LocationOp::RegisterOffset { register: 6, offset: -16 };
    assert_eq!(
        BaseOffset::from_operation(op, 0, &r(0x100, 0x110)),
        Ok(base(vec![r(0x100, 0x110)], 6, -16))
    );
}

#[test]
fn from_operation_refuses_what_follows() {
    let op = LocationOp::RegisterOffset { register: 6, offset: -16 };
    assert_eq!(
        BaseOffset::from_operation(op, 1, &r(0, 1)),
        Err(FrameBaseError::UnsupportedExpression)
    );
}

#[test]
fn from_operation_refuses_other_operations() {
    assert_eq!(
        BaseOffset::from_operation(LocationOp::FrameOffset { offset: 8 }, 0, &r(0, 1)),
        Err(FrameBaseError::UnsupportedExpression)
    );
    assert_eq!(
        BaseOffset::from_operation(LocationOp::Other, 0, &r(0, 1)),
        Err(FrameBaseError::UnsupportedExpression)
    );
}

#[test]
fn from_exprloc_decodes_the_expression() {
    assert_eq!(
        BaseOffset::from_exprloc(&[0x76, 0x70], &r(0x100, 0x110), &enc()),
        Ok(base(vec![r(0x100, 0x110)], 6, -16))
    );
    assert_eq!(
        BaseOffset::from_exprloc(&[0x8f, 0x10], &r(1, 2), &enc()),
        Ok(base(vec![r(1, 2)], 31, 16))
    );
}

#[test]
fn from_exprloc_errors() {
    let range = r(0, 8);
    // No operation at all.
    assert_eq!(
        BaseOffset::from_exprloc(&[], &range, &enc()),
        Err(FrameBaseError::UnsupportedExpression)
    );
    // DW_OP_call_frame_cfa is no register plus offset.
    assert_eq!(
        BaseOffset::from_exprloc(&[0x9c], &range, &enc()),
        Err(FrameBaseError::UnsupportedExpression)
    );
    // Two operations.
    assert_eq!(
        BaseOffset::from_exprloc(&[0x76, 0x70, 0x96], &range, &enc()),
        Err(FrameBaseError::UnsupportedExpression)
    );
    // The first operation is cut short.
    assert_eq!(BaseOffset::from_exprloc(&[0x76], &range, &enc()), Err(FrameBaseError::Decode));
    // The second operation is cut short.
    assert_eq!(
        BaseOffset::from_exprloc(&[0x76, 0x70, 0x91], &range, &enc()),
        Err(FrameBaseError::Decode)
    );
    // The first operation is judged before the second is decoded.
    assert_eq!(
        BaseOffset::from_exprloc(&[0x9c, 0x91], &range, &enc()),
        Err(FrameBaseError::UnsupportedExpression)
    );
}

#[test]
fn loclist_gives_one_candidate_per_entry() {
    let list = vec![entry(0x100, 0x110, vec![0x76, 0x70]), entry(0x110, 0x120, vec![0x77, 0x08])];
    assert_eq!(
        loclist_as_offsets(&list, &enc()),
        Ok(vec![base(vec![r(0x100, 0x110)], 6, -16), base(vec![r(0x110, 0x120)], 7, 8)])
    );
    assert_eq!(loclist_as_offsets(&vec![], &enc()), Ok(vec![]));
}

#[test]
fn loclist_fails_with_the_first_error() {
    let list = vec![
        entry(0, 1, vec![0x76, 0x70]),
        entry(1, 2, vec![0x9c]),
        entry(2, 3, vec![0x76]),
    ];
    assert_eq!(loclist_as_offsets(&list, &enc()), Err(FrameBaseError::UnsupportedExpression));
    let list = vec![entry(0, 1, vec![0x76]), entry(1, 2, vec![0x9c])];
    assert_eq!(loclist_as_offsets(&list, &enc()), Err(FrameBaseError::Decode));
}

#[test]
fn merge_joins_agreeing_candidates_sorted() {
    let v = vec![base(vec![r(0x120, 0x140)], 6, -16), base(vec![r(0x100, 0x110)], 6, -16)];
    assert_eq!(
        BaseOffset::from_merged_base_offsets(6, Architecture::X86_64, v),
        Ok(Some(base(vec![r(0x100, 0x110), r(0x120, 0x140)], 6, -16)))
    );
}

#[test]
fn merge_passes_over_other_registers() {
    let v = vec![
        base(vec![r(0, 4)], 7, 8),
        base(vec![r(4, 8)], 6, 16),
        base(vec![r(8, 12)], 7, 24),
        base(vec![r(12, 16)], 6, 16),
    ];
    assert_eq!(
        BaseOffset::from_merged_base_offsets(6, Architecture::X86_64, v),
        Ok(Some(base(vec![r(4, 8), r(12, 16)], 6, 16)))
    );
}

#[test]
fn merge_without_a_candidate_gives_none() {
    assert_eq!(BaseOffset::from_merged_base_offsets(6, Architecture::X86_64, vec![]), Ok(None));
    let v = vec![base(vec![r(0, 4)], 7, 8)];
    assert_eq!(BaseOffset::from_merged_base_offsets(6, Architecture::X86_64, v), Ok(None));
}

#[test]
fn merge_reports_both_conflicting_offsets() {
    let a = base(vec![r(0, 4)], 6, -16);
    let b = base(vec![r(4, 8)], 6, -32);
    assert_eq!(
        BaseOffset::from_merged_base_offsets(6, Architecture::X86_64, vec![a.clone(), b.clone()]),
        Err(FrameBaseError::AmbiguousFrameBase(vec![b, a]))
    );
}

#[test]
fn merge_error_holds_every_conflict_and_the_merged_first() {
    let v = vec![
        base(vec![r(0, 4)], 6, -16),
        base(vec![r(4, 8)], 6, -32),
        base(vec![r(8, 12)], 6, -16),
        base(vec![r(12, 16)], 6, -48),
    ];
    assert_eq!(
        BaseOffset::from_merged_base_offsets(6, Architecture::X86_64, v),
        Err(FrameBaseError::AmbiguousFrameBase(vec![
            base(vec![r(4, 8)], 6, -32),
            base(vec![r(12, 16)], 6, -48),
            base(vec![r(0, 4), r(8, 12)], 6, -16),
        ]))
    );
}

#[test]
fn aarch64_passes_over_offset_zero() {
    let v = vec![base(vec![r(0, 4)], 31, 0)];
    assert_eq!(BaseOffset::from_merged_base_offsets(31, Architecture::Aarch64, v), Ok(None));
    let v = vec![
        base(vec![r(0, 4)], 31, 0),
        base(vec![r(4, 8)], 31, 32),
        base(vec![r(8, 12)], 31, 0),
        base(vec![r(12, 16)], 31, 32),
    ];
    assert_eq!(
        BaseOffset::from_merged_base_offsets(31, Architecture::Aarch64, v),
        Ok(Some(base(vec![r(4, 8), r(12, 16)], 31, 32)))
    );
}

#[test]
fn x86_64_keeps_offset_zero() {
    let v = vec![base(vec![r(0, 4)], 6, 0)];
    assert_eq!(
        BaseOffset::from_merged_base_offsets(6, Architecture::X86_64, v),
        Ok(Some(base(vec![r(0, 4)], 6, 0)))
    );
    let v = vec![base(vec![r(0, 4)], 6, 0), base(vec![r(4, 8)], 6, 8)];
    assert!(matches!(
        BaseOffset::from_merged_base_offsets(6, Architecture::X86_64, v),
        Err(FrameBaseError::AmbiguousFrameBase(_))
    ));
}

#[test]
fn relativize_counts_from_the_entry() {
    let mut b = base(vec![r(0x100, 0x110), r(0x120, 0x140)], 6, -16);
    b.relativize(0x100);
    assert_eq!(b, base(vec![r(0, 0x10), r(0x20, 0x40)], 6, -16));
}

#[test]
fn starts_at_or_above_looks_at_both_bounds() {
    let b = base(vec![r(0x100, 0x110), r(0x120, 0x140)], 6, -16);
    assert!(b.starts_at_or_above(0x100));
    assert!(!b.starts_at_or_above(0x101));
    assert!(!base(vec![r(0x100, 0x50)], 6, 0).starts_at_or_above(0x60));
    assert!(base(vec![], 6, 0).starts_at_or_above(u64::MAX));
}

#[test]
fn invert_gives_the_gaps() {
    let b = base(vec![r(0, 0x10), r(0x20, 0x40)], 6, -16);
    assert_eq!(b.invert(&r(0x100, 0x140)), vec![r(0x10, 0x20)]);
    let b = base(vec![r(4, 8)], 6, -16);
    assert_eq!(b.invert(&r(0x100, 0x120)), vec![r(0, 3), r(9, 0x20)]);
    assert_eq!(base(vec![], 6, 0).invert(&r(0x100, 0x120)), vec![r(0, 0x20)]);
    // A function of no length.
    assert_eq!(base(vec![r(0, 0)], 6, 0).invert(&r(0x100, 0x100)), vec![]);
}

#[test]
fn duplicate_copies_the_frame_base() {
    let b = base(vec![r(1, 2), r(3, 4)], 6, -16);
    assert_eq!(b.duplicate(), b);
}

#[test]
fn frame_base_of_a_location_list() {
    let attr = FrameBaseAttr::LocationList(vec![
        entry(0x100, 0x110, vec![0x76, 0x70]),
        entry(0x110, 0x120, vec![0x77, 0x08]),
        entry(0x120, 0x140, vec![0x76, 0x70]),
    ]);
    assert_eq!(
        BaseOffset::from_frame_base(&attr, &r(0x100, 0x140), Architecture::X86_64, &enc()),
        Ok(Some(base(vec![r(0, 0x10), r(0x20, 0x40)], 6, -16)))
    );
}

#[test]
fn frame_base_of_an_expression() {
    let attr = FrameBaseAttr::Expression(vec![0x77, 0x08]);
    // The architecture is not asked for.
    assert_eq!(
        BaseOffset::from_frame_base(&attr, &r(0x100, 0x140), Architecture::Other, &enc()),
        Ok(Some(base(vec![r(0, 0x40)], 7, 8)))
    );
}

#[test]
fn frame_base_errors() {
    let range = r(0x100, 0x140);
    let list = FrameBaseAttr::LocationList(vec![entry(0x100, 0x110, vec![0x76, 0x70])]);
    assert_eq!(
        BaseOffset::from_frame_base(&list, &range, Architecture::Other, &enc()),
        Err(FrameBaseError::UnsupportedArchitecture)
    );
    assert_eq!(
        BaseOffset::from_frame_base(&FrameBaseAttr::Other, &range, Architecture::X86_64, &enc()),
        Err(FrameBaseError::UnexpectedAttribute)
    );
    // A malformed expression comes before the architecture.
    let bad = FrameBaseAttr::LocationList(vec![entry(0x100, 0x110, vec![0x76])]);
    assert_eq!(
        BaseOffset::from_frame_base(&bad, &range, Architecture::Other, &enc()),
        Err(FrameBaseError::Decode)
    );
    let two = FrameBaseAttr::LocationList(vec![
        entry(0x100, 0x110, vec![0x76, 0x70]),
        entry(0x110, 0x120, vec![0x76, 0x60]),
    ]);
    assert_eq!(
        BaseOffset::from_frame_base(&two, &range, Architecture::X86_64, &enc()),
        Err(FrameBaseError::AmbiguousFrameBase(vec![
            base(vec![r(0x110, 0x120)], 6, -32),
            base(vec![r(0x100, 0x110)], 6, -16),
        ]))
    );
}

#[test]
fn frame_base_without_the_frame_register() {
    let attr = FrameBaseAttr::LocationList(vec![entry(0x100, 0x110, vec![0x77, 0x08])]);
    assert_eq!(
        BaseOffset::from_frame_base(&attr, &r(0x100, 0x140), Architecture::X86_64, &enc()),
        Ok(None)
    );
    let sp = FrameBaseAttr::LocationList(vec![entry(0x100, 0x110, vec![0x8f, 0x00])]);
    assert_eq!(
        BaseOffset::from_frame_base(&sp, &r(0x100, 0x140), Architecture::Aarch64, &enc()),
        Ok(None)
    );
}

#[test]
fn frame_base_below_the_entry_is_an_error() {
    let attr = FrameBaseAttr::LocationList(vec![entry(0x80, 0x110, vec![0x76, 0x70])]);
    assert_eq!(
        BaseOffset::from_frame_base(&attr, &r(0x100, 0x140), Architecture::X86_64, &enc()),
        Err(FrameBaseError::RangeBelowEntry)
    );
}

#[test]
fn a_location_list_that_cannot_be_read_is_an_error() {
    assert_eq!(
        BaseOffset::from_frame_base(
            &FrameBaseAttr::Unreadable,
            &r(0x100, 0x140),
            Architecture::X86_64,
            &enc()
        ),
        Err(FrameBaseError::UnreadableList)
    );
}

#[test]
fn merged_ranges_of_disjoint_candidates_do_not_overlap() {
    let v = vec![
        base(vec![r(40, 50), r(10, 20)], 6, 8),
        base(vec![r(30, 40)], 6, 8),
        base(vec![r(0, 10), r(20, 30)], 6, 8),
    ];
    let merged = BaseOffset::from_merged_base_offsets(6, Architecture::X86_64, v).unwrap().unwrap();
    assert_eq!(merged.valid, vec![r(0, 10), r(10, 20), r(20, 30), r(30, 40), r(40, 50)]);
    for pair in merged.valid.windows(2) {
        assert!(pair[0].end <= pair[1].start);
    }
}
