//! The scan of one function: its frame base, its parameters, and the variable
//! that holds the saved arguments.

use crate::classify::{
    c_source, concrete, die_has_c_source, entry_kind, entry_kind_of, extent, is_concrete_function,
    is_register_type, register_fits, EntryKind,
};
use crate::entry::{ChildEntry, EntryError, FunctionEntry};
use crate::expr::{
    count_operations, decoded, next_operation, operation_count, tail_of, Encoding, LocationOp,
};
use crate::frame_base::{
    copy_ranges, frame_base_of, Architecture, BaseOffset, BaseOffsetView, FrameBaseError,
    FrameBaseErrorView,
};
use crate::range::{complement_of, coverage_weight, total_weight, CodeRange};
use vstd::prelude::*;
use vstd::string::StringExecFns;

verus! {

/// The name of the variable that holds the saved arguments.
pub const SAVED_ARGS: &'static str = "__illumos_saved_args_v1__";

/// What the scan found of one function whose arguments are saved.
#[derive(Clone, Debug, PartialEq, Eq)]
pub struct FunctionRecord {
    pub name: String,
    /// Where the function's entry stands in the debugging information.
    pub die_offset: u64,
    /// The number of parameters that are passed in integer registers.
    pub nparams: u32,
    /// Where the saved arguments lie, counted from the frame register.
    pub saved_arg_offset: i64,
    /// Where in the function the frame base holds, counted from its entry.
    pub valid: Vec<CodeRange>,
    /// Where in the function the frame base does not hold.
    pub invalid: Vec<CodeRange>,
    /// The weight of `valid`; a hundred times this over `length` is the share
    /// of the function, in percent, in which the frame base holds.
    pub valid_weight: u128,
    /// The length of the function.
    pub length: u64,
}

/// What a `FunctionRecord` holds.
pub ghost struct FunctionRecordView {
    pub name: Seq<char>,
    pub die_offset: u64,
    pub nparams: u32,
    pub saved_arg_offset: i64,
    pub valid: Seq<CodeRange>,
    pub invalid: Seq<CodeRange>,
    pub valid_weight: u128,
    pub length: u64,
}

impl View for FunctionRecord {
    type V = FunctionRecordView;

    open spec fn view(&self) -> FunctionRecordView {
        FunctionRecordView {
            name: self.name@,
            die_offset: self.die_offset,
            nparams: self.nparams,
            saved_arg_offset: self.saved_arg_offset,
            valid: self.valid@,
            invalid: self.invalid@,
            valid_weight: self.valid_weight,
            length: self.length,
        }
    }
}

/// What the scan of a function has to say to whoever runs it. None of these
/// ends the scan.
#[derive(Clone, Debug, PartialEq, Eq)]
pub enum Warning {
    /// The function has no frame-base attribute.
    NoFrameBase,
    /// The frame base could not be read.
    FrameBase(FrameBaseError),
    /// No entry of the location list is for the frame register.
    NoBasePointer,
    /// The saved-arguments variable at `offset` is not marked artificial.
    NotArtificial { offset: u64 },
    /// The location of the variable at `offset` begins with `op`, which is no
    /// offset from the frame base.
    UnexpectedLocation { offset: u64, op: LocationOp },
    /// The offset of the variable at `offset`, added to that of the frame
    /// base, is out of range.
    OffsetOutOfRange { offset: u64 },
    /// Operations follow the first in the location of the variable at
    /// `offset`.
    ExtraOperations { offset: u64 },
    /// The function has `nparams` parameters in integer registers, and no
    /// variable that holds the saved arguments.
    MissingSavedArgs { nparams: u32 },
}

/// What a `Warning` holds.
pub ghost enum WarningView {
    NoFrameBase,
    FrameBase(FrameBaseErrorView),
    NoBasePointer,
    NotArtificial { offset: u64 },
    UnexpectedLocation { offset: u64, op: LocationOp },
    OffsetOutOfRange { offset: u64 },
    ExtraOperations { offset: u64 },
    MissingSavedArgs { nparams: u32 },
}

impl View for Warning {
    type V = WarningView;

    open spec fn view(&self) -> WarningView {
        match self {
            Warning::NoFrameBase => WarningView::NoFrameBase,
            Warning::FrameBase(e) => WarningView::FrameBase(e@),
            Warning::NoBasePointer => WarningView::NoBasePointer,
            Warning::NotArtificial { offset } => WarningView::NotArtificial { offset: *offset },
            Warning::UnexpectedLocation { offset, op } => WarningView::UnexpectedLocation {
                offset: *offset,
                op: *op,
            },
            Warning::OffsetOutOfRange { offset } => WarningView::OffsetOutOfRange {
                offset: *offset,
            },
            Warning::ExtraOperations { offset } => WarningView::ExtraOperations { offset: *offset },
            Warning::MissingSavedArgs { nparams } => WarningView::MissingSavedArgs {
                nparams: *nparams,
            },
        }
    }
}

/// What the scan of one function gives.
#[derive(Clone, Debug, PartialEq, Eq)]
pub struct FunctionScan {
    /// The record of the function, where its arguments are saved.
    pub record: Option<FunctionRecord>,
    /// The warnings, in the order in which they came up.
    pub warnings: Vec<Warning>,
    /// The error that ended the scan, and with it the scan of the file.
    pub error: Option<EntryError>,
}

/// What a `FunctionScan` holds.
pub ghost struct FunctionScanView {
    pub record: Option<FunctionRecordView>,
    pub warnings: Seq<WarningView>,
    pub error: Option<EntryError>,
}

/// What each of the warnings holds.
pub open spec fn warning_views(s: Seq<Warning>) -> Seq<WarningView> {
    Seq::new(s.len(), |i: int| s[i]@)
}

impl View for FunctionScan {
    type V = FunctionScanView;

    open spec fn view(&self) -> FunctionScanView {
        FunctionScanView {
            record: match self.record {
                Some(r) => Some(r@),
                None => None,
            },
            warnings: warning_views(self.warnings@),
            error: self.error,
        }
    }
}

/// The function that the children of an entry are scanned for.
pub ghost struct ScanContext {
    pub name: Seq<char>,
    pub die_offset: u64,
    /// The addresses that the function spans.
    pub range: CodeRange,
    /// The frame base of the function, counted from its entry.
    pub base: BaseOffsetView,
    pub enc: Encoding,
}

/// How far the scan of a function's children has come.
pub ghost struct ChildState {
    /// The parameters in integer registers so far.
    pub nparams: nat,
    /// Whether a variable that holds the saved arguments has been met.
    pub seen: bool,
    pub record: Option<FunctionRecordView>,
    pub warnings: Seq<WarningView>,
    pub error: Option<EntryError>,
}

/// Whether the entry is a variable with the name of the saved arguments.
pub open spec fn holds_saved_args(child: ChildEntry) -> bool {
    entry_kind_of(child.tag) is Variable && (child.name matches Some(name) && name@
        == SAVED_ARGS@)
}

/// The record of the function in `cx`, with `nparams` parameters and the
/// saved arguments at `saved_arg_offset`.
pub open spec fn record_of(cx: ScanContext, nparams: nat, saved_arg_offset: int)
    -> FunctionRecordView {
    FunctionRecordView {
        name: cx.name,
        die_offset: cx.die_offset,
        nparams: nparams as u32,
        saved_arg_offset: saved_arg_offset as i64,
        valid: cx.base.valid,
        invalid: complement_of(cx.base.valid, cx.range.len()),
        valid_weight: total_weight(cx.base.valid) as u128,
        length: cx.range.len() as u64,
    }
}

/// Where the saved arguments lie when the location of their variable begins
/// with `op`: at the offset of the frame base plus that of `op`, which has to
/// be an offset from the frame base. Else the warning that the variable at
/// `child_offset` gets.
pub open spec fn location_offset(base_offset: i64, op: LocationOp, child_offset: u64) -> Result<
    i64,
    WarningView,
> {
    match op {
        LocationOp::FrameOffset { offset } => if i64::MIN <= base_offset + offset <= i64::MAX {
            Ok((base_offset + offset) as i64)
        } else {
            Err(WarningView::OffsetOutOfRange { offset: child_offset })
        },
        _ => Err(WarningView::UnexpectedLocation { offset: child_offset, op }),
    }
}

/// The scan after the variable that holds the saved arguments. One that is
/// not artificial gets a warning. Its location has to begin with an offset
/// from the frame base, which gives the record; what follows that operation
/// gets a warning, and bytes that do not decode end the scan.
pub open spec fn saved_args_step(st: ChildState, child: ChildEntry, cx: ScanContext) -> ChildState {
    let marked = ChildState {
        seen: true,
        warnings: if child.artificial {
            st.warnings
        } else {
            st.warnings.push(WarningView::NotArtificial { offset: child.offset })
        },
        ..st
    };
    match child.location {
        None => marked,
        Some(bytes) => if bytes@.len() == 0 {
            marked
        } else {
            match decoded(bytes@, cx.enc) {
                None => ChildState { error: Some(EntryError::Decode), ..marked },
                Some((op, rest)) => match location_offset(cx.base.offset, op, child.offset) {
                    Err(w) => ChildState { warnings: marked.warnings.push(w), ..marked },
                    Ok(at) => {
                        let found = ChildState {
                            record: Some(record_of(cx, st.nparams, at as int)),
                            ..marked
                        };
                        match operation_count(tail_of(bytes@, rest), cx.enc) {
                            None => ChildState { error: Some(EntryError::Decode), ..found },
                            Some(n) => if n == 0 {
                                found
                            } else {
                                ChildState {
                                    warnings: found.warnings.push(
                                        WarningView::ExtraOperations { offset: child.offset },
                                    ),
                                    ..found
                                }
                            },
                        }
                    },
                },
            }
        },
    }
}

/// The scan after one more child. A parameter counts where its type is
/// passed in an integer register, and ends the scan where its type cannot be
/// classified. The first variable with the name of the saved arguments is
/// looked at, later ones are not. After an error nothing is looked at.
pub open spec fn child_step(st: ChildState, child: ChildEntry, cx: ScanContext) -> ChildState {
    if st.error is Some {
        st
    } else {
        match entry_kind_of(child.tag) {
            EntryKind::FormalParameter => match register_fits(child.type_attr) {
                Err(e) => ChildState { error: Some(e), ..st },
                Ok(true) => ChildState { nparams: st.nparams + 1, ..st },
                Ok(false) => st,
            },
            EntryKind::Variable => if holds_saved_args(child) && !st.seen {
                saved_args_step(st, child, cx)
            } else {
                st
            },
            _ => st,
        }
    }
}

/// The scan after all of `children`, taken in order.
pub open spec fn children_fold(children: Seq<ChildEntry>, cx: ScanContext) -> ChildState
    decreases children.len(),
{
    if children.len() == 0 {
        ChildState { nparams: 0, seen: false, record: None, warnings: seq![], error: None }
    } else {
        child_step(children_fold(children.drop_last(), cx), children.last(), cx)
    }
}

/// The scan of a function whose children have all been looked at. Where it
/// has parameters in integer registers and no variable that holds the saved
/// arguments, and no error came up, that gets a warning.
pub open spec fn finished(st: ChildState) -> FunctionScanView {
    FunctionScanView {
        record: st.record,
        warnings: if st.error is None && st.nparams > 0 && !st.seen {
            st.warnings.push(WarningView::MissingSavedArgs { nparams: st.nparams as u32 })
        } else {
            st.warnings
        },
        error: st.error,
    }
}

/// A scan that found nothing to say.
pub open spec fn silent() -> FunctionScanView {
    FunctionScanView { record: None, warnings: seq![], error: None }
}

/// A scan that ended with one warning.
pub open spec fn warned(w: WarningView) -> FunctionScanView {
    FunctionScanView { record: None, warnings: seq![w], error: None }
}

/// A scan that ended with an error.
pub open spec fn failed(e: EntryError) -> FunctionScanView {
    FunctionScanView { record: None, warnings: seq![], error: Some(e) }
}

/// The scan of one entry of a compilation unit. Anything but a concrete
/// function from a source file that is no assembler source, with a name and
/// both addresses, is passed over in silence. A function without a frame
/// base, or with one that cannot be read, gets a warning and is not looked
/// into. Else its children are scanned.
pub open spec fn scan_of(entry: FunctionEntry, arch: Architecture, enc: Encoding)
    -> FunctionScanView {
    if !(entry_kind_of(entry.tag) is Subprogram) {
        silent()
    } else {
        match concrete(entry) {
            Err(e) => failed(e),
            Ok(false) => silent(),
            Ok(true) => if !c_source(entry) {
                silent()
            } else {
                match (entry.name, extent(entry)) {
                    (None, _) => silent(),
                    (Some(_), Err(e)) => failed(e),
                    (Some(_), Ok(None)) => silent(),
                    (Some(name), Ok(Some(range))) => match entry.frame_base {
                        None => warned(WarningView::NoFrameBase),
                        Some(attr) => match frame_base_of(attr, range, arch, enc) {
                            Err(e) => warned(WarningView::FrameBase(e)),
                            Ok(None) => warned(WarningView::NoBasePointer),
                            Ok(Some(base)) => finished(
                                children_fold(
                                    entry.children@,
                                    ScanContext {
                                        name: name@,
                                        die_offset: entry.offset,
                                        range,
                                        base,
                                        enc,
                                    },
                                ),
                            ),
                        },
                    },
                }
            },
        }
    }
}

/// What kind of file an object file is.
#[derive(Clone, Copy, Debug, PartialEq, Eq, Structural)]
pub enum ObjectKind {
    Executable,
    Dynamic,
    Relocatable,
    Other,
}

/// What to do with an object file.
#[derive(Clone, Copy, Debug, PartialEq, Eq, Structural)]
pub enum FileAction {
    /// Pass over the file in silence.
    Skip,
    /// Scan the file.
    Scan,
    /// Say that files of this kind are not scanned.
    Unsupported,
}

/// What to do with an object file: one without type information is passed
/// over; of the others, executables, shared and relocatable objects are
/// scanned.
pub fn file_action(has_ctf: bool, kind: ObjectKind) -> (action: FileAction)
    ensures
        action == if !has_ctf {
            FileAction::Skip
        } else if kind is Other {
            FileAction::Unsupported
        } else {
            FileAction::Scan
        },
{
    if !has_ctf {
        FileAction::Skip
    } else {
        match kind {
            ObjectKind::Other => FileAction::Unsupported,
            _ => FileAction::Scan,
        }
    }
}

/// Where the saved arguments lie when the location of their variable begins
/// with `op`, or the warning that the variable at `child_offset` gets.
pub fn saved_args_location(base_offset: i64, op: LocationOp, child_offset: u64) -> (r: Result<
    i64,
    Warning,
>)
    ensures
        match location_offset(base_offset, op, child_offset) {
            Ok(at) => r matches Ok(x) && x == at,
            Err(w) => r matches Err(x) && x@ == w,
        },
{
    match op {
        LocationOp::FrameOffset { offset } => match base_offset.checked_add(offset) {
            Some(at) => Ok(at),
            None => Err(Warning::OffsetOutOfRange { offset: child_offset }),
        },
        _ => Err(Warning::UnexpectedLocation { offset: child_offset, op }),
    }
}

/// Puts one more warning behind the others.
fn push_warning(warnings: &mut Vec<Warning>, w: Warning)
    ensures
        warning_views(final(warnings)@) == warning_views(old(warnings)@).push(w@),
{
    warnings.push(w);
}

/// A scan that ended before the children were looked at.
fn ended(warning: Option<Warning>, error: Option<EntryError>) -> (scan: FunctionScan)
    ensures
        scan@ == (FunctionScanView {
            record: None,
            warnings: match warning {
                Some(w) => seq![w@],
                None => seq![],
            },
            error,
        }),
{
    let mut warnings: Vec<Warning> = Vec::new();
    assert(warning_views(warnings@) == Seq::<WarningView>::empty());
    match warning {
        Some(w) => {
            push_warning(&mut warnings, w);
        },
        None => {},
    }
    FunctionScan { record: None, warnings, error }
}

/// After an error, the children that follow change nothing.
proof fn lemma_error_stops(children: Seq<ChildEntry>, cx: ScanContext, i: int)
    requires
        0 <= i <= children.len(),
        children_fold(children.take(i), cx).error is Some,
    ensures
        children_fold(children, cx) == children_fold(children.take(i), cx),
    decreases children.len() - i,
{
    if i < children.len() {
        assert(children.take(i + 1).drop_last() == children.take(i));
        lemma_error_stops(children, cx, i + 1);
    } else {
        assert(children.take(i) == children);
    }
}

/// No more parameters have been counted than children have been looked at.
proof fn lemma_nparams_bound(children: Seq<ChildEntry>, cx: ScanContext)
    ensures
        children_fold(children, cx).nparams <= children.len(),
    decreases children.len(),
{
    if children.len() > 0 {
        lemma_nparams_bound(children.drop_last(), cx);
    }
}

/// Scans the children of the function `entry`, whose name, extent and frame
/// base are known.
fn scan_children(
    entry: &FunctionEntry,
    name: &String,
    range: &CodeRange,
    base: &BaseOffset,
    enc: &Encoding,
) -> (scan: FunctionScan)
    requires
        entry.children@.len() <= u32::MAX,
    ensures
        scan@ == finished(
            children_fold(
                entry.children@,
                ScanContext {
                    name: name@,
                    die_offset: entry.offset,
                    range: *range,
                    base: base@,
                    enc: *enc,
                },
            ),
        ),
{
    let ghost cx = ScanContext {
        name: name@,
        die_offset: entry.offset,
        range: *range,
        base: base@,
        enc: *enc,
    };
    let target: String = String::from_str(SAVED_ARGS);
    let n: usize = entry.children.len();
    let mut nparams: u32 = 0;
    let mut seen: bool = false;
    let mut record: Option<FunctionRecord> = None;
    let mut warnings: Vec<Warning> = Vec::new();
    let mut error: Option<EntryError> = None;
    let mut i: usize = 0;
    assert(warning_views(warnings@) == Seq::<WarningView>::empty());
    while i < n && error.is_none()
        invariant
            n == entry.children@.len(),
            n <= u32::MAX,
            i <= n,
            nparams <= i,
            target@ == SAVED_ARGS@,
            cx == (ScanContext {
                name: name@,
                die_offset: entry.offset,
                range: *range,
                base: base@,
                enc: *enc,
            }),
            children_fold(entry.children@.take(i as int), cx) == (ChildState {
                nparams: nparams as nat,
                seen,
                record: match record {
                    Some(r) => Some(r@),
                    None => None,
                },
                warnings: warning_views(warnings@),
                error,
            }),
        decreases n - i,
    {
        let child: &ChildEntry = &entry.children[i];
        proof {
            assert(entry.children@.take(i + 1).drop_last() == entry.children@.take(i as int));
        }
        match entry_kind(child.tag) {
            EntryKind::FormalParameter => match is_register_type(&child.type_attr) {
                Err(e) => {
                    error = Some(e);
                },
                Ok(true) => {
                    nparams = nparams + 1;
                },
                Ok(false) => {},
            },
            EntryKind::Variable => {
                let named: bool = match &child.name {
                    Some(s) => *s == target,
                    None => false,
                };
                if named && !seen {
                    seen = true;
                    if !child.artificial {
                        push_warning(
                            &mut warnings,
                            Warning::NotArtificial { offset: child.offset },
                        );
                    }
                    match &child.location {
                        None => {},
                        Some(bytes) => match next_operation(bytes.as_slice(), enc) {
                            Err(_) => {
                                error = Some(EntryError::Decode);
                            },
                            Ok(None) => {},
                            Ok(Some((op, tail))) => match saved_args_location(
                                base.offset,
                                op,
                                child.offset,
                            ) {
                                Err(w) => {
                                    push_warning(&mut warnings, w);
                                },
                                Ok(at) => {
                                    record = Some(
                                        FunctionRecord {
                                            name: name.clone(),
                                            die_offset: entry.offset,
                                            nparams,
                                            saved_arg_offset: at,
                                            valid: copy_ranges(&base.valid),
                                            invalid: base.invert(range),
                                            valid_weight: coverage_weight(&base.valid),
                                            length: range.length(),
                                        },
                                    );
                                    match count_operations(tail, enc) {
                                        Err(_) => {
                                            error = Some(EntryError::Decode);
                                        },
                                        Ok(trailing) => {
                                            if trailing != 0 {
                                                push_warning(
                                                    &mut warnings,
                                                    Warning::ExtraOperations {
                                                        offset: child.offset,
                                                    },
                                                );
                                            }
                                        },
                                    }
                                },
                            },
                        },
                    }
                }
            },
            _ => {},
        }
        i = i + 1;
    }
    proof {
        if error.is_some() {
            lemma_error_stops(entry.children@, cx, i as int);
        } else {
            assert(entry.children@.take(n as int) == entry.children@);
        }
    }
    if error.is_none() && nparams > 0 && !seen {
        push_warning(&mut warnings, Warning::MissingSavedArgs { nparams });
    }
    FunctionScan { record, warnings, error }
}

/// Scans one entry of a compilation unit: finds the frame base of a function
/// and, among its children, the parameters that are passed in integer
/// registers and the variable that holds the saved arguments.
pub fn scan_function(entry: &FunctionEntry, arch: Architecture, enc: &Encoding) -> (scan:
    FunctionScan)
    requires
        entry.children@.len() <= u32::MAX,
    ensures
        scan@ == scan_of(*entry, arch, *enc),
{
    match entry_kind(entry.tag) {
        EntryKind::Subprogram => {},
        _ => {
            return ended(None, None);
        },
    }
    match is_concrete_function(entry) {
        Err(e) => {
            return ended(None, Some(e));
        },
        Ok(false) => {
            return ended(None, None);
        },
        Ok(true) => {},
    }
    if !die_has_c_source(entry) {
        return ended(None, None);
    }
    let name: &String = match &entry.name {
        None => {
            return ended(None, None);
        },
        Some(name) => name,
    };
    let range: CodeRange = match CodeRange::from_function_die(entry) {
        Err(e) => {
            return ended(None, Some(e));
        },
        Ok(None) => {
            return ended(None, None);
        },
        Ok(Some(range)) => range,
    };
    let attr = match &entry.frame_base {
        None => {
            return ended(Some(Warning::NoFrameBase), None);
        },
        Some(attr) => attr,
    };
    match BaseOffset::from_frame_base(attr, &range, arch, enc) {
        Err(e) => ended(Some(Warning::FrameBase(e)), None),
        Ok(None) => ended(Some(Warning::NoBasePointer), None),
        Ok(Some(base)) => scan_children(entry, name, &range, &base, enc),
    }
}

/// Whether a child counts as a parameter that is passed in an integer
/// register.
pub open spec fn counted(child: ChildEntry) -> bool {
    entry_kind_of(child.tag) is FormalParameter && register_fits(child.type_attr) == Ok::<
        bool,
        EntryError,
    >(true)
}

/// None of the warnings is that of parameters without saved arguments.
pub open spec fn no_missing_warning(warnings: Seq<WarningView>) -> bool {
    forall|i: int| 0 <= i < warnings.len() ==> !((#[trigger] warnings[i]) is MissingSavedArgs)
}

/// While the children are looked at, no warning of parameters without saved
/// arguments comes up, and only children that count are counted.
proof fn lemma_fold_counts(children: Seq<ChildEntry>, cx: ScanContext)
    ensures
        no_missing_warning(children_fold(children, cx).warnings),
        (forall|i: int| 0 <= i < children.len() ==> !counted(#[trigger] children[i]))
            ==> children_fold(children, cx).nparams == 0,
    decreases children.len(),
{
    if children.len() > 0 {
        let front = children.drop_last();
        lemma_fold_counts(front, cx);
        if forall|i: int| 0 <= i < children.len() ==> !counted(#[trigger] children[i]) {
            assert forall|i: int| 0 <= i < front.len() implies !counted(#[trigger] front[i]) by {
                assert(front[i] == children[i]);
            }
        }
    }
}

/// A function without a parameter that is passed in an integer register gets
/// no warning of parameters without saved arguments, whatever else it holds.
pub proof fn lemma_no_parameters_no_warning(entry: FunctionEntry, arch: Architecture, enc: Encoding)
    requires
        forall|i: int| 0 <= i < entry.children@.len() ==> !counted(#[trigger] entry.children@[i]),
    ensures
        no_missing_warning(scan_of(entry, arch, enc).warnings),
{
    match (entry.name, extent(entry), entry.frame_base) {
        (Some(name), Ok(Some(range)), Some(attr)) => match frame_base_of(attr, range, arch, enc) {
            Ok(Some(base)) => {
                let cx = ScanContext { name: name@, die_offset: entry.offset, range, base, enc };
                lemma_fold_counts(entry.children@, cx);
            },
            _ => {},
        },
        _ => {},
    }
}

} // verus!
