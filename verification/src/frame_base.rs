//! The frame base of a function: one register and one offset, and the
//! instruction ranges over which the pair holds.

use crate::expr::{
    count_operations, decoded, next_operation, operation_count, tail_of, Encoding, LocationOp,
};
use crate::range::{
    complement, complement_of, lemma_sorted_of, lemma_sorted_of_disjoint, non_empty,
    non_overlapping, pairwise_apart, range_of, sort_by_start, sorted_by_start, sorted_of,
    CodeRange,
};
use vstd::prelude::*;

verus! {

/// The machine that an object file was compiled for.
#[derive(Clone, Copy, Debug, PartialEq, Eq, Structural)]
pub enum Architecture {
    X86_64,
    Aarch64,
    Other,
}

/// The register that holds the frame base on `arch`: the base pointer on
/// x86-64, the stack pointer on AArch64.
pub open spec fn frame_register_of(arch: Architecture) -> Option<u16> {
    match arch {
        Architecture::X86_64 => Some(6u16),
        Architecture::Aarch64 => Some(31u16),
        Architecture::Other => None,
    }
}

/// The register that holds the frame base on `arch`, where one is known.
pub fn frame_register(arch: Architecture) -> (r: Option<u16>)
    ensures
        r == frame_register_of(arch),
{
    match arch {
        Architecture::X86_64 => Some(6),
        Architecture::Aarch64 => Some(31),
        Architecture::Other => None,
    }
}

/// The frame base is `register + offset` at the addresses in `valid`.
#[derive(Clone, Debug, PartialEq, Eq)]
pub struct BaseOffset {
    pub valid: Vec<CodeRange>,
    pub offset: i64,
    pub register: u16,
}

/// What a `BaseOffset` holds.
pub ghost struct BaseOffsetView {
    pub valid: Seq<CodeRange>,
    pub offset: i64,
    pub register: u16,
}

impl View for BaseOffset {
    type V = BaseOffsetView;

    open spec fn view(&self) -> BaseOffsetView {
        BaseOffsetView { valid: self.valid@, offset: self.offset, register: self.register }
    }
}

/// Why a frame base could not be read.
#[derive(Clone, Debug, PartialEq, Eq)]
pub enum FrameBaseError {
    /// The bytes of a location expression did not decode.
    Decode,
    /// The expression is not one "register plus constant" operation.
    UnsupportedExpression,
    /// No frame register is known for the architecture.
    UnsupportedArchitecture,
    /// The attribute is neither an expression nor a location list.
    UnexpectedAttribute,
    /// The location list gives the frame register more than one offset. Holds
    /// the entries that differ, and behind them the one they differ from.
    AmbiguousFrameBase(Vec<BaseOffset>),
    /// A range of the frame base lies below the entry of its function.
    RangeBelowEntry,
    /// The location list could not be read.
    UnreadableList,
}

/// What a `FrameBaseError` holds.
pub ghost enum FrameBaseErrorView {
    Decode,
    UnsupportedExpression,
    UnsupportedArchitecture,
    UnexpectedAttribute,
    AmbiguousFrameBase(Seq<BaseOffsetView>),
    RangeBelowEntry,
    UnreadableList,
}

impl View for FrameBaseError {
    type V = FrameBaseErrorView;

    open spec fn view(&self) -> FrameBaseErrorView {
        match self {
            FrameBaseError::Decode => FrameBaseErrorView::Decode,
            FrameBaseError::UnsupportedExpression => FrameBaseErrorView::UnsupportedExpression,
            FrameBaseError::UnsupportedArchitecture => FrameBaseErrorView::UnsupportedArchitecture,
            FrameBaseError::UnexpectedAttribute => FrameBaseErrorView::UnexpectedAttribute,
            FrameBaseError::AmbiguousFrameBase(v) => FrameBaseErrorView::AmbiguousFrameBase(
                views(v@),
            ),
            FrameBaseError::RangeBelowEntry => FrameBaseErrorView::RangeBelowEntry,
            FrameBaseError::UnreadableList => FrameBaseErrorView::UnreadableList,
        }
    }
}

/// One entry of a location list: an expression and the addresses it holds at.
#[derive(Clone, Debug, PartialEq, Eq)]
pub struct LocationEntry {
    pub range: CodeRange,
    pub expression: Vec<u8>,
}

/// The value of a function's frame-base attribute.
#[derive(Clone, Debug, PartialEq, Eq)]
pub enum FrameBaseAttr {
    /// A location list, its entries in the order they are stored in.
    LocationList(Vec<LocationEntry>),
    /// A location list that could not be read.
    Unreadable,
    /// One expression that holds over the whole function.
    Expression(Vec<u8>),
    /// A value of any other form.
    Other,
}

/// What each of the candidates holds.
pub open spec fn views(s: Seq<BaseOffset>) -> Seq<BaseOffsetView> {
    Seq::new(s.len(), |i: int| s[i]@)
}

/// What a frame base, a missing one or an error holds.
pub open spec fn outcome_view(r: Result<Option<BaseOffset>, FrameBaseError>) -> Result<
    Option<BaseOffsetView>,
    FrameBaseErrorView,
> {
    match r {
        Ok(Some(b)) => Ok(Some(b@)),
        Ok(None) => Ok(None),
        Err(e) => Err(e@),
    }
}

/// The frame base that one operation gives when `trailing` more follow it:
/// "register plus constant" alone, over `range`.
pub open spec fn operation_result(op: LocationOp, trailing: nat, range: CodeRange) -> Result<
    BaseOffsetView,
    FrameBaseErrorView,
> {
    match op {
        LocationOp::RegisterOffset { register, offset } => if trailing == 0 {
            Ok(BaseOffsetView { valid: seq![range], offset, register })
        } else {
            Err(FrameBaseErrorView::UnsupportedExpression)
        },
        _ => Err(FrameBaseErrorView::UnsupportedExpression),
    }
}

/// The frame base that the expression in `bytes` gives over `range`. The first
/// operation is read and judged before the ones behind it are decoded.
pub open spec fn exprloc_result(bytes: Seq<u8>, enc: Encoding, range: CodeRange) -> Result<
    BaseOffsetView,
    FrameBaseErrorView,
> {
    if bytes.len() == 0 {
        Err(FrameBaseErrorView::UnsupportedExpression)
    } else {
        match decoded(bytes, enc) {
            None => Err(FrameBaseErrorView::Decode),
            Some((op, rest)) => if op is RegisterOffset {
                match operation_count(tail_of(bytes, rest), enc) {
                    None => Err(FrameBaseErrorView::Decode),
                    Some(n) => operation_result(op, n, range),
                }
            } else {
                Err(FrameBaseErrorView::UnsupportedExpression)
            },
        }
    }
}

/// The frame bases that the entries of a location list give, in order, or
/// the error of the first entry that gives none.
pub open spec fn loclist_result(list: Seq<LocationEntry>, enc: Encoding) -> Result<
    Seq<BaseOffsetView>,
    FrameBaseErrorView,
>
    decreases list.len(),
{
    if list.len() == 0 {
        Ok(seq![])
    } else {
        match loclist_result(list.drop_last(), enc) {
            Err(e) => Err(e),
            Ok(front) => match exprloc_result(list.last().expression@, enc, list.last().range) {
                Err(e) => Err(e),
                Ok(b) => Ok(front.push(b)),
            },
        }
    }
}

/// What merging has found so far: the frame base that the candidates agree
/// on, and the candidates that give the register another offset.
pub ghost struct MergeState {
    pub acc: Option<BaseOffsetView>,
    pub conflicts: Seq<BaseOffsetView>,
}

/// Whether merging passes over a candidate: one of another register, and on
/// AArch64 one of offset 0.
pub open spec fn passed_over(c: BaseOffsetView, reg: u16, arch: Architecture) -> bool {
    (arch == Architecture::Aarch64 && c.offset == 0) || c.register != reg
}

/// Merging after one more candidate. The first candidate that is not passed
/// over becomes the frame base; a later one adds its ranges to it where the
/// offsets agree, and is a conflict where they do not.
pub open spec fn merge_step(st: MergeState, c: BaseOffsetView, reg: u16, arch: Architecture)
    -> MergeState {
    if passed_over(c, reg, arch) {
        st
    } else {
        match st.acc {
            None => MergeState { acc: Some(c), conflicts: st.conflicts },
            Some(a) => if c.offset == a.offset {
                MergeState {
                    acc: Some(
                        BaseOffsetView {
                            valid: a.valid + c.valid,
                            offset: a.offset,
                            register: a.register,
                        },
                    ),
                    conflicts: st.conflicts,
                }
            } else {
                MergeState { acc: st.acc, conflicts: st.conflicts.push(c) }
            },
        }
    }
}

/// Merging after all of `cands`, taken in order.
pub open spec fn merge_fold(cands: Seq<BaseOffsetView>, reg: u16, arch: Architecture) -> MergeState
    decreases cands.len(),
{
    if cands.len() == 0 {
        MergeState { acc: None, conflicts: seq![] }
    } else {
        merge_step(merge_fold(cands.drop_last(), reg, arch), cands.last(), reg, arch)
    }
}

/// The one frame base of `cands` for register `reg`: none where no candidate
/// counts, an error where they disagree, else the first that counts with the
/// ranges of all that agree with it, in the order of their `start`.
pub open spec fn merged(cands: Seq<BaseOffsetView>, reg: u16, arch: Architecture) -> Result<
    Option<BaseOffsetView>,
    FrameBaseErrorView,
> {
    let st = merge_fold(cands, reg, arch);
    match st.acc {
        None => Ok(None),
        Some(a) => if st.conflicts.len() > 0 {
            Err(FrameBaseErrorView::AmbiguousFrameBase(st.conflicts.push(a)))
        } else {
            Ok(
                Some(
                    BaseOffsetView {
                        valid: sorted_of(a.valid),
                        offset: a.offset,
                        register: a.register,
                    },
                ),
            )
        },
    }
}

/// Every range lies at or above `to`.
pub open spec fn all_at_or_above(valid: Seq<CodeRange>, to: u64) -> bool {
    forall|i: int| 0 <= i < valid.len() ==> (#[trigger] valid[i]).at_or_above(to)
}

/// The ranges, each moved down by `to`.
pub open spec fn shifted(valid: Seq<CodeRange>, to: u64) -> Seq<CodeRange> {
    Seq::new(valid.len(), |i: int| range_of(valid[i].start - to, valid[i].end - to))
}

/// A frame base with its ranges counted from the entry of the function at
/// `to`. One with a range below the entry is an error.
pub open spec fn rebased(
    r: Result<Option<BaseOffsetView>, FrameBaseErrorView>,
    to: u64,
) -> Result<Option<BaseOffsetView>, FrameBaseErrorView> {
    match r {
        Ok(Some(b)) => if all_at_or_above(b.valid, to) {
            Ok(
                Some(
                    BaseOffsetView {
                        valid: shifted(b.valid, to),
                        offset: b.offset,
                        register: b.register,
                    },
                ),
            )
        } else {
            Err(FrameBaseErrorView::RangeBelowEntry)
        },
        _ => r,
    }
}

/// The frame base that a frame-base attribute gives for the function that
/// spans `range`, with ranges counted from the function's entry.
pub open spec fn frame_base_of(
    attr: FrameBaseAttr,
    range: CodeRange,
    arch: Architecture,
    enc: Encoding,
) -> Result<Option<BaseOffsetView>, FrameBaseErrorView> {
    rebased(
        match attr {
            FrameBaseAttr::LocationList(list) => match loclist_result(list@, enc) {
                Err(e) => Err(e),
                Ok(cands) => match frame_register_of(arch) {
                    None => Err(FrameBaseErrorView::UnsupportedArchitecture),
                    Some(reg) => merged(cands, reg, arch),
                },
            },
            FrameBaseAttr::Unreadable => Err(FrameBaseErrorView::UnreadableList),
            FrameBaseAttr::Expression(bytes) => match exprloc_result(bytes@, enc, range) {
                Err(e) => Err(e),
                Ok(b) => Ok(Some(b)),
            },
            FrameBaseAttr::Other => Err(FrameBaseErrorView::UnexpectedAttribute),
        },
        range.start,
    )
}

/// A copy of the ranges.
pub(crate) fn copy_ranges(src: &Vec<CodeRange>) -> (r: Vec<CodeRange>)
    ensures
        r@ == src@,
{
    let n: usize = src.len();
    let mut r: Vec<CodeRange> = Vec::new();
    let mut i: usize = 0;
    while i < n
        invariant
            n == src.len(),
            i <= n,
            r@ == src@.take(i as int),
        decreases n - i,
    {
        r.push(src[i]);
        i = i + 1;
    }
    r
}

/// Puts the ranges of `more` behind those of `valid`.
fn append_ranges(valid: &mut Vec<CodeRange>, more: &Vec<CodeRange>)
    ensures
        final(valid)@ == old(valid)@ + more@,
{
    let n: usize = more.len();
    let mut i: usize = 0;
    while i < n
        invariant
            n == more.len(),
            i <= n,
            valid@ == old(valid)@ + more@.take(i as int),
        decreases n - i,
    {
        valid.push(more[i]);
        i = i + 1;
    }
}

impl BaseOffset {
    /// A copy of the frame base.
    pub fn duplicate(&self) -> (r: BaseOffset)
        ensures
            r@ == self@,
    {
        BaseOffset { valid: copy_ranges(&self.valid), offset: self.offset, register: self.register }
    }

    /// The frame base that the first operation of an expression gives over
    /// `range`, when `trailing` operations follow it. It is one where the
    /// operation is "register plus constant" and nothing follows.
    pub fn from_operation(op: LocationOp, trailing: usize, range: &CodeRange) -> (r: Result<
        BaseOffset,
        FrameBaseError,
    >)
        ensures
            match operation_result(op, trailing as nat, *range) {
                Ok(b) => r matches Ok(x) && x@ == b,
                Err(e) => r matches Err(x) && x@ == e,
            },
    {
        match op {
            LocationOp::RegisterOffset { register, offset } => {
                if trailing == 0 {
                    let mut valid: Vec<CodeRange> = Vec::new();
                    valid.push(*range);
                    Ok(BaseOffset { valid, offset, register })
                } else {
                    Err(FrameBaseError::UnsupportedExpression)
                }
            },
            _ => Err(FrameBaseError::UnsupportedExpression),
        }
    }

    /// The frame base that the location expression in `bytes` gives over
    /// `range`. The expression has to be one "register plus constant"
    /// operation; the first operation is judged before the rest is decoded.
    pub fn from_exprloc(bytes: &[u8], range: &CodeRange, enc: &Encoding) -> (r: Result<
        BaseOffset,
        FrameBaseError,
    >)
        ensures
            match exprloc_result(bytes@, *enc, *range) {
                Ok(b) => r matches Ok(x) && x@ == b,
                Err(e) => r matches Err(x) && x@ == e,
            },
    {
        match next_operation(bytes, enc) {
            Err(_) => Err(FrameBaseError::Decode),
            Ok(None) => Err(FrameBaseError::UnsupportedExpression),
            Ok(Some((op, tail))) => {
                match op {
                    LocationOp::RegisterOffset { .. } => match count_operations(tail, enc) {
                        Err(_) => Err(FrameBaseError::Decode),
                        Ok(trailing) => BaseOffset::from_operation(op, trailing, range),
                    },
                    _ => Err(FrameBaseError::UnsupportedExpression),
                }
            },
        }
    }

    /// The one frame base that the candidates of a location list give for
    /// register `reg`. On AArch64 candidates of offset 0 do not count. Returns
    /// nothing where no candidate is for `reg`, the error where two of them
    /// have different offsets, else the first with the ranges of all, sorted.
    pub fn from_merged_base_offsets(reg: u16, arch: Architecture, v: Vec<BaseOffset>) -> (r: Result<
        Option<BaseOffset>,
        FrameBaseError,
    >)
        ensures
            outcome_view(r) == merged(views(v@), reg, arch),
            r matches Ok(Some(b)) ==> sorted_by_start(b.valid@),
    {
        let n: usize = v.len();
        let aarch64: bool = match arch {
            Architecture::Aarch64 => true,
            _ => false,
        };
        let mut found: bool = false;
        let mut valid: Vec<CodeRange> = Vec::new();
        let mut offset: i64 = 0;
        let mut conflicts: Vec<BaseOffset> = Vec::new();
        let mut i: usize = 0;
        assert(views(conflicts@) == Seq::<BaseOffsetView>::empty());
        while i < n
            invariant
                n == v.len(),
                i <= n,
                aarch64 == (arch == Architecture::Aarch64),
                merge_fold(views(v@).take(i as int), reg, arch) == (MergeState {
                    acc: if found {
                        Some(BaseOffsetView { valid: valid@, offset, register: reg })
                    } else {
                        None
                    },
                    conflicts: views(conflicts@),
                }),
            decreases n - i,
        {
            let c: &BaseOffset = &v[i];
            proof {
                assert(views(v@).take(i + 1).drop_last() == views(v@).take(i as int));
            }
            if !((aarch64 && c.offset == 0) || c.register != reg) {
                if !found {
                    found = true;
                    valid = copy_ranges(&c.valid);
                    offset = c.offset;
                } else if c.offset == offset {
                    append_ranges(&mut valid, &c.valid);
                } else {
                    let ghost before = conflicts@;
                    conflicts.push(c.duplicate());
                    assert(views(conflicts@) == views(before).push(c@));
                }
            }
            i = i + 1;
        }
        assert(views(v@).take(n as int) == views(v@));
        if !found {
            Ok(None)
        } else if conflicts.len() > 0 {
            let ghost before = conflicts@;
            let acc = BaseOffset { valid, offset, register: reg };
            conflicts.push(acc);
            assert(views(conflicts@) == views(before).push(acc@));
            Err(FrameBaseError::AmbiguousFrameBase(conflicts))
        } else {
            let sorted = sort_by_start(&valid);
            Ok(Some(BaseOffset { valid: sorted, offset, register: reg }))
        }
    }

    /// Counts the ranges from `to`, the entry of the function, in place.
    pub fn relativize(&mut self, to: u64)
        requires
            all_at_or_above(old(self).valid@, to),
        ensures
            final(self).valid@ == shifted(old(self).valid@, to),
            final(self).offset == old(self).offset,
            final(self).register == old(self).register,
    {
        let n: usize = self.valid.len();
        let mut moved: Vec<CodeRange> = Vec::new();
        let mut i: usize = 0;
        while i < n
            invariant
                n == self.valid.len(),
                i <= n,
                *self == *old(self),
                all_at_or_above(self.valid@, to),
                moved@ == shifted(self.valid@, to).take(i as int),
            decreases n - i,
        {
            let r: CodeRange = self.valid[i];
            moved.push(r.shift(to));
            i = i + 1;
        }
        self.valid = moved;
    }

    /// Whether every range lies at or above `to`.
    pub fn starts_at_or_above(&self, to: u64) -> (b: bool)
        ensures
            b == all_at_or_above(self.valid@, to),
    {
        let n: usize = self.valid.len();
        let mut i: usize = 0;
        while i < n
            invariant
                n == self.valid.len(),
                i <= n,
                forall|k: int| 0 <= k < i ==> (#[trigger] self.valid@[k]).at_or_above(to),
            decreases n - i,
        {
            let r: CodeRange = self.valid[i];
            if !(to <= r.start && to <= r.end) {
                return false;
            }
            i = i + 1;
        }
        true
    }

    /// The parts of a function that spans `range` at which the frame base is
    /// not known: the gaps that `valid` leaves in the length of `range`.
    pub fn invert(&self, range: &CodeRange) -> (gaps: Vec<CodeRange>)
        ensures
            gaps@ == complement_of(self.valid@, range.len()),
    {
        complement(&self.valid, range.length())
    }

    /// The frame base that a frame-base attribute gives for the function that
    /// spans `range`: of a location list the merged one for the frame register
    /// of `arch`, of an expression the one it names. Its ranges are counted
    /// from the entry of the function.
    pub fn from_frame_base(
        frame_base: &FrameBaseAttr,
        range: &CodeRange,
        arch: Architecture,
        enc: &Encoding,
    ) -> (r: Result<Option<BaseOffset>, FrameBaseError>)
        ensures
            outcome_view(r) == frame_base_of(*frame_base, *range, arch, *enc),
            r matches Ok(Some(b)) ==> sorted_by_start(b.valid@),
    {
        proof {
            lemma_frame_base_sorted(*frame_base, *range, arch, *enc);
        }
        let found: Option<BaseOffset> = match frame_base {
            FrameBaseAttr::LocationList(list) => {
                let cands = match loclist_as_offsets(list, enc) {
                    Err(e) => {
                        return Err(e);
                    },
                    Ok(cands) => cands,
                };
                let reg: u16 = match frame_register(arch) {
                    None => {
                        return Err(FrameBaseError::UnsupportedArchitecture);
                    },
                    Some(reg) => reg,
                };
                match BaseOffset::from_merged_base_offsets(reg, arch, cands) {
                    Err(e) => {
                        return Err(e);
                    },
                    Ok(found) => found,
                }
            },
            FrameBaseAttr::Unreadable => {
                return Err(FrameBaseError::UnreadableList);
            },
            FrameBaseAttr::Expression(bytes) => {
                match BaseOffset::from_exprloc(bytes.as_slice(), range, enc) {
                    Err(e) => {
                        return Err(e);
                    },
                    Ok(b) => Some(b),
                }
            },
            FrameBaseAttr::Other => {
                return Err(FrameBaseError::UnexpectedAttribute);
            },
        };
        match found {
            None => Ok(None),
            Some(mut b) => {
                if b.starts_at_or_above(range.start) {
                    b.relativize(range.start);
                    Ok(Some(b))
                } else {
                    Err(FrameBaseError::RangeBelowEntry)
                }
            },
        }
    }
}

/// The frame bases that the entries of a location list give, in order. Fails
/// with the error of the first entry that gives none.
pub fn loclist_as_offsets(list: &Vec<LocationEntry>, enc: &Encoding) -> (r: Result<
    Vec<BaseOffset>,
    FrameBaseError,
>)
    ensures
        match loclist_result(list@, *enc) {
            Ok(s) => r matches Ok(v) && views(v@) == s,
            Err(e) => r matches Err(x) && x@ == e,
        },
{
    let n: usize = list.len();
    let mut out: Vec<BaseOffset> = Vec::new();
    let mut i: usize = 0;
    assert(views(out@) == Seq::<BaseOffsetView>::empty());
    while i < n
        invariant
            n == list.len(),
            i <= n,
            loclist_result(list@.take(i as int), *enc) == Ok::<
                Seq<BaseOffsetView>,
                FrameBaseErrorView,
            >(views(out@)),
        decreases n - i,
    {
        let entry: &LocationEntry = &list[i];
        proof {
            assert(list@.take(i + 1).drop_last() == list@.take(i as int));
        }
        match BaseOffset::from_exprloc(entry.expression.as_slice(), &entry.range, enc) {
            Err(e) => {
                proof {
                    lemma_loclist_error(list@, *enc, i as int);
                }
                return Err(e);
            },
            Ok(b) => {
                let ghost before = out@;
                out.push(b);
                assert(views(out@) == views(before).push(b@));
            },
        }
        i = i + 1;
    }
    assert(list@.take(n as int) == list@);
    Ok(out)
}

/// The error of the first entry that gives no frame base is the error of the
/// whole list.
proof fn lemma_loclist_error(list: Seq<LocationEntry>, enc: Encoding, i: int)
    requires
        0 <= i < list.len(),
        loclist_result(list.take(i), enc) is Ok,
        exprloc_result(list[i].expression@, enc, list[i].range) is Err,
    ensures
        loclist_result(list, enc) == Err::<Seq<BaseOffsetView>, FrameBaseErrorView>(
            exprloc_result(list[i].expression@, enc, list[i].range)->Err_0,
        ),
    decreases list.len(),
{
    if i == list.len() - 1 {
        assert(list.drop_last() == list.take(i));
    } else {
        assert(list.drop_last().take(i) == list.take(i));
        lemma_loclist_error(list.drop_last(), enc, i);
    }
}

/// Moving ranges down keeps the order of their `start`.
proof fn lemma_shifted_sorted(valid: Seq<CodeRange>, to: u64)
    requires
        all_at_or_above(valid, to),
        sorted_by_start(valid),
    ensures
        sorted_by_start(shifted(valid, to)),
{
    let moved = shifted(valid, to);
    assert forall|i: int, j: int| 0 <= i <= j < moved.len() implies (#[trigger] moved[i]).start <= (
    #[trigger] moved[j]).start by {
        assert(valid[i].start <= valid[j].start);
    }
}

/// The ranges of a frame base come in the order of their `start`, whatever
/// the order of the entries that gave them.
pub proof fn lemma_frame_base_sorted(
    attr: FrameBaseAttr,
    range: CodeRange,
    arch: Architecture,
    enc: Encoding,
)
    ensures
        frame_base_of(attr, range, arch, enc) matches Ok(Some(b)) ==> sorted_by_start(b.valid),
{
    match attr {
        FrameBaseAttr::LocationList(list) => match loclist_result(list@, enc) {
            Ok(cands) => match frame_register_of(arch) {
                Some(reg) => match merged(cands, reg, arch) {
                    Ok(Some(b)) => {
                        lemma_sorted_of(merge_fold(cands, reg, arch).acc->Some_0.valid);
                        if all_at_or_above(b.valid, range.start) {
                            lemma_shifted_sorted(b.valid, range.start);
                        }
                    },
                    _ => {},
                },
                None => {},
            },
            Err(_) => {},
        },
        FrameBaseAttr::Expression(bytes) => match exprloc_result(bytes@, enc, range) {
            Ok(b) => {
                if all_at_or_above(b.valid, range.start) {
                    lemma_shifted_sorted(b.valid, range.start);
                }
            },
            Err(_) => {},
        },
        _ => {},
    }
}

/// What merging has found, said of the candidates themselves: there is a
/// frame base exactly where a candidate counts; its offset is that of every
/// candidate that counts and is no conflict; and the conflicts are candidates
/// that count and have another offset.
spec fn fold_told(cands: Seq<BaseOffsetView>, reg: u16, arch: Architecture) -> bool {
    let st = merge_fold(cands, reg, arch);
    match st.acc {
        None => st.conflicts.len() == 0 && forall|i: int|
            0 <= i < cands.len() ==> passed_over(#[trigger] cands[i], reg, arch),
        Some(a) => {
            &&& a.register == reg
            &&& exists|i: int|
                0 <= i < cands.len() && !passed_over(#[trigger] cands[i], reg, arch) && cands[i].offset
                    == a.offset
            &&& forall|i: int|
                0 <= i < cands.len() && !passed_over(#[trigger] cands[i], reg, arch)
                    && cands[i].offset != a.offset ==> st.conflicts.contains(cands[i])
            &&& forall|k: int|
                0 <= k < st.conflicts.len() ==> (#[trigger] st.conflicts[k]).offset != a.offset
                    && !passed_over(st.conflicts[k], reg, arch) && cands.contains(st.conflicts[k])
        },
    }
}

proof fn lemma_fold_told(cands: Seq<BaseOffsetView>, reg: u16, arch: Architecture)
    ensures
        fold_told(cands, reg, arch),
    decreases cands.len(),
{
    if cands.len() > 0 {
        let front = cands.drop_last();
        let c = cands.last();
        let n = front.len() as int;
        lemma_fold_told(front, reg, arch);
        let before = merge_fold(front, reg, arch);
        let st = merge_fold(cands, reg, arch);
        assert forall|i: int| 0 <= i < n implies front[i] == cands[i] by {}
        match before.acc {
            None => {
                if !passed_over(c, reg, arch) {
                    assert(!passed_over(cands[n], reg, arch) && cands[n].offset == c.offset);
                } else {
                    assert forall|i: int| 0 <= i < cands.len() implies passed_over(
                        #[trigger] cands[i],
                        reg,
                        arch,
                    ) by {
                        if i < n {
                            assert(passed_over(front[i], reg, arch));
                        }
                    }
                }
            },
            Some(a) => {
                let w = choose|i: int|
                    0 <= i < front.len() && !passed_over(#[trigger] front[i], reg, arch)
                        && front[i].offset == a.offset;
                assert(!passed_over(cands[w], reg, arch) && cands[w].offset == a.offset);
                assert forall|k: int| 0 <= k < st.conflicts.len() implies (
                #[trigger] st.conflicts[k]).offset != a.offset && !passed_over(
                    st.conflicts[k],
                    reg,
                    arch,
                ) && cands.contains(st.conflicts[k]) by {
                    if k < before.conflicts.len() {
                        let m = choose|m: int|
                            0 <= m < front.len() && front[m] == before.conflicts[k];
                        assert(cands[m] == st.conflicts[k]);
                    } else {
                        assert(st.conflicts[k] == c);
                    }
                }
                assert forall|i: int|
                    0 <= i < cands.len() && !passed_over(#[trigger] cands[i], reg, arch)
                        && cands[i].offset != a.offset implies st.conflicts.contains(cands[i]) by {
                    if i < n {
                        let k = choose|k: int|
                            0 <= k < before.conflicts.len() && before.conflicts[k] == front[i];
                        assert(st.conflicts[k] == cands[i]);
                    } else {
                        assert(st.conflicts[before.conflicts.len() as int] == c);
                    }
                }
            },
        }
    }
}

/// When merging gives what: no frame base exactly where every candidate is
/// passed over; the error exactly where two candidates that count have
/// different offsets; else a frame base for `reg` with the offset of every
/// candidate that counts.
pub proof fn lemma_merged_outcome(cands: Seq<BaseOffsetView>, reg: u16, arch: Architecture)
    ensures
        merged(cands, reg, arch) == Ok::<Option<BaseOffsetView>, FrameBaseErrorView>(None)
            <==> forall|i: int| 0 <= i < cands.len() ==> passed_over(#[trigger] cands[i], reg, arch),
        merged(cands, reg, arch) is Err <==> exists|i: int, j: int|
            0 <= i < cands.len() && 0 <= j < cands.len() && !passed_over(
                #[trigger] cands[i],
                reg,
                arch,
            ) && !passed_over(#[trigger] cands[j], reg, arch) && cands[i].offset
                != cands[j].offset,
        merged(cands, reg, arch) matches Ok(Some(b)) ==> b.register == reg && forall|i: int|
            0 <= i < cands.len() && !passed_over(#[trigger] cands[i], reg, arch) ==> cands[i].offset
                == b.offset,
{
    lemma_fold_told(cands, reg, arch);
    let st = merge_fold(cands, reg, arch);
    match st.acc {
        None => {},
        Some(a) => {
            let w = choose|i: int|
                0 <= i < cands.len() && !passed_over(#[trigger] cands[i], reg, arch)
                    && cands[i].offset == a.offset;
            if st.conflicts.len() > 0 {
                let x = st.conflicts[0];
                let m = choose|m: int| 0 <= m < cands.len() && cands[m] == x;
                assert(!passed_over(cands[m], reg, arch) && !passed_over(cands[w], reg, arch)
                    && cands[m].offset != cands[w].offset);
            } else {
                assert forall|i: int|
                    0 <= i < cands.len() && !passed_over(
                        #[trigger] cands[i],
                        reg,
                        arch,
                    ) implies cands[i].offset == a.offset by {
                    if cands[i].offset != a.offset {
                        assert(st.conflicts.contains(cands[i]));
                    }
                }
            }
        },
    }
}

/// Merging one candidate: it is the frame base unless it is passed over.
proof fn lemma_merge_one(a: BaseOffsetView, reg: u16, arch: Architecture)
    ensures
        merge_fold(seq![a], reg, arch) == (MergeState {
            acc: if passed_over(a, reg, arch) {
                None
            } else {
                Some(a)
            },
            conflicts: Seq::empty(),
        }),
{
    let none = Seq::<BaseOffsetView>::empty();
    assert(seq![a].drop_last() == none);
    assert(merge_fold(none, reg, arch) == MergeState { acc: None, conflicts: none });
}

/// Two candidates for register `reg` with one offset merge into one frame
/// base, never into an error: it holds the ranges of both, in the order of
/// their `start`. (On AArch64 this is so for every offset but 0.) Where the
/// ranges each hold an address and share none, none of the merged ranges
/// begins before the one before it has ended.
pub proof fn lemma_merge_agreeing(
    a: BaseOffsetView,
    b: BaseOffsetView,
    reg: u16,
    arch: Architecture,
)
    requires
        a.register == reg,
        b.register == reg,
        a.offset == b.offset,
        !(arch == Architecture::Aarch64 && a.offset == 0),
    ensures
        merged(seq![a, b], reg, arch) == Ok::<Option<BaseOffsetView>, FrameBaseErrorView>(
            Some(
                BaseOffsetView {
                    valid: sorted_of(a.valid + b.valid),
                    offset: a.offset,
                    register: reg,
                },
            ),
        ),
        sorted_by_start(sorted_of(a.valid + b.valid)),
        sorted_of(a.valid + b.valid).to_multiset() == a.valid.to_multiset().add(
            b.valid.to_multiset(),
        ),
        non_empty(a.valid + b.valid) && pairwise_apart(a.valid + b.valid) ==> non_overlapping(
            sorted_of(a.valid + b.valid),
        ),
{
    if non_empty(a.valid + b.valid) && pairwise_apart(a.valid + b.valid) {
        lemma_sorted_of_disjoint(a.valid + b.valid);
    }
    let both = seq![a, b];
    assert(both.drop_last() == seq![a]);
    lemma_merge_one(a, reg, arch);
    lemma_sorted_of(a.valid + b.valid);
    vstd::seq_lib::lemma_multiset_commutative(a.valid, b.valid);
}

/// Two candidates for register `reg` with different offsets are an error that
/// holds both. (On AArch64 this is so where neither offset is 0.)
pub proof fn lemma_merge_conflicting(
    a: BaseOffsetView,
    b: BaseOffsetView,
    reg: u16,
    arch: Architecture,
)
    requires
        a.register == reg,
        b.register == reg,
        a.offset != b.offset,
        !(arch == Architecture::Aarch64 && (a.offset == 0 || b.offset == 0)),
    ensures
        merged(seq![a, b], reg, arch) == Err::<Option<BaseOffsetView>, FrameBaseErrorView>(
            FrameBaseErrorView::AmbiguousFrameBase(seq![b, a]),
        ),
{
    let both = seq![a, b];
    assert(both.drop_last() == seq![a]);
    lemma_merge_one(a, reg, arch);
    assert(Seq::<BaseOffsetView>::empty().push(b).push(a) == seq![b, a]);
}

/// On AArch64 no candidate of offset 0 is part of what merging has found.
proof fn lemma_fold_hides_zero(cands: Seq<BaseOffsetView>, reg: u16)
    ensures
        merge_fold(cands, reg, Architecture::Aarch64).acc matches Some(a) ==> a.offset != 0,
        forall|i: int|
            0 <= i < merge_fold(cands, reg, Architecture::Aarch64).conflicts.len() ==> (
            #[trigger] merge_fold(cands, reg, Architecture::Aarch64).conflicts[i]).offset != 0,
    decreases cands.len(),
{
    if cands.len() > 0 {
        lemma_fold_hides_zero(cands.drop_last(), reg);
    }
}

/// On AArch64 a candidate of offset 0 never shows in what merging gives:
/// neither as the frame base nor among the entries of an error. Where it is
/// the only candidate, there is no frame base.
pub proof fn lemma_aarch64_hides_zero_offset(cands: Seq<BaseOffsetView>, reg: u16)
    ensures
        match merged(cands, reg, Architecture::Aarch64) {
            Ok(Some(b)) => b.offset != 0,
            Ok(None) => true,
            Err(FrameBaseErrorView::AmbiguousFrameBase(l)) => forall|i: int|
                0 <= i < l.len() ==> (#[trigger] l[i]).offset != 0,
            Err(_) => false,
        },
        cands.len() == 1 && cands[0].offset == 0 ==> merged(cands, reg, Architecture::Aarch64)
            == Ok::<Option<BaseOffsetView>, FrameBaseErrorView>(None),
{
    lemma_fold_hides_zero(cands, reg);
    if cands.len() == 1 {
        assert(cands == seq![cands[0]]);
        lemma_merge_one(cands[0], reg, Architecture::Aarch64);
    }
}

} // verus!
