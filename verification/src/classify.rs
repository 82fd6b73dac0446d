//! Which functions are worth a scan, and which types are passed in an integer
//! register.

use crate::entry::{
    AddrAttr, EncodingAttr, EntryError, FunctionEntry, InlineAttr, TypeAttr, TypeEntry,
};
use crate::range::CodeRange;
use gimli::{DwAte, DwInl, DwTag};
use vstd::prelude::*;
use vstd::string::StrSliceExecFns;

verus! {

/// What the tag of an entry in a function says it is.
#[derive(Clone, Copy, Debug, PartialEq, Eq, Structural)]
pub enum EntryKind {
    Subprogram,
    FormalParameter,
    Variable,
    Other,
}

/// What the tag of a type's entry says it is.
#[derive(Clone, Copy, Debug, PartialEq, Eq, Structural)]
pub enum TypeKind {
    Base,
    Pointer,
    Array,
    Enumeration,
    Volatile,
    Typedef,
    Const,
    Structure,
    Union,
    Other,
}

/// How a base type is encoded.
#[derive(Clone, Copy, Debug, PartialEq, Eq, Structural)]
pub enum EncodingKind {
    Boolean,
    ComplexFloat,
    Float,
    Signed,
    SignedChar,
    Unsigned,
    UnsignedChar,
    Other,
}

/// What an inline code says of a function.
#[derive(Clone, Copy, Debug, PartialEq, Eq, Structural)]
pub enum InlineKind {
    NotInlined,
    Inlined,
    DeclaredNotInlined,
    DeclaredInlined,
    Other,
}

/// The kind of entry that DWARF gives the tag `tag`.
pub open spec fn entry_kind_of(tag: u16) -> EntryKind {
    if tag == 0x2e {
        EntryKind::Subprogram
    } else if tag == 0x05 {
        EntryKind::FormalParameter
    } else if tag == 0x34 {
        EntryKind::Variable
    } else {
        EntryKind::Other
    }
}

/// The kind of type that DWARF gives the tag `tag`.
pub open spec fn type_kind_of(tag: u16) -> TypeKind {
    if tag == 0x24 {
        TypeKind::Base
    } else if tag == 0x0f {
        TypeKind::Pointer
    } else if tag == 0x01 {
        TypeKind::Array
    } else if tag == 0x04 {
        TypeKind::Enumeration
    } else if tag == 0x35 {
        TypeKind::Volatile
    } else if tag == 0x16 {
        TypeKind::Typedef
    } else if tag == 0x26 {
        TypeKind::Const
    } else if tag == 0x13 {
        TypeKind::Structure
    } else if tag == 0x17 {
        TypeKind::Union
    } else {
        TypeKind::Other
    }
}

/// The encoding that DWARF gives the code `code`.
pub open spec fn encoding_kind_of(code: u8) -> EncodingKind {
    if code == 0x02 {
        EncodingKind::Boolean
    } else if code == 0x03 {
        EncodingKind::ComplexFloat
    } else if code == 0x04 {
        EncodingKind::Float
    } else if code == 0x05 {
        EncodingKind::Signed
    } else if code == 0x06 {
        EncodingKind::SignedChar
    } else if code == 0x07 {
        EncodingKind::Unsigned
    } else if code == 0x08 {
        EncodingKind::UnsignedChar
    } else {
        EncodingKind::Other
    }
}

/// What DWARF says with the inline code `code`.
pub open spec fn inline_kind_of(code: u8) -> InlineKind {
    if code == 0x00 {
        InlineKind::NotInlined
    } else if code == 0x01 {
        InlineKind::Inlined
    } else if code == 0x02 {
        InlineKind::DeclaredNotInlined
    } else if code == 0x03 {
        InlineKind::DeclaredInlined
    } else {
        InlineKind::Other
    }
}

/// Tells `tag` apart by `gimli`'s constants `DW_TAG_subprogram`,
/// `DW_TAG_formal_parameter` and `DW_TAG_variable`, whose numbers the
/// contract holds.
#[verifier::external_body]
pub(crate) fn entry_kind(tag: u16) -> (k: EntryKind)
    ensures
        k == entry_kind_of(tag),
{
    match DwTag(tag) {
        gimli::DW_TAG_subprogram => EntryKind::Subprogram,
        gimli::DW_TAG_formal_parameter => EntryKind::FormalParameter,
        gimli::DW_TAG_variable => EntryKind::Variable,
        _ => EntryKind::Other,
    }
}

/// Tells `tag` apart by `gimli`'s constants for the tags of types
/// (`DW_TAG_base_type` and the like), whose numbers the contract holds.
#[verifier::external_body]
fn type_kind(tag: u16) -> (k: TypeKind)
    ensures
        k == type_kind_of(tag),
{
    match DwTag(tag) {
        gimli::DW_TAG_base_type => TypeKind::Base,
        gimli::DW_TAG_pointer_type => TypeKind::Pointer,
        gimli::DW_TAG_array_type => TypeKind::Array,
        gimli::DW_TAG_enumeration_type => TypeKind::Enumeration,
        gimli::DW_TAG_volatile_type => TypeKind::Volatile,
        gimli::DW_TAG_typedef => TypeKind::Typedef,
        gimli::DW_TAG_const_type => TypeKind::Const,
        gimli::DW_TAG_structure_type => TypeKind::Structure,
        gimli::DW_TAG_union_type => TypeKind::Union,
        _ => TypeKind::Other,
    }
}

/// Tells `code` apart by `gimli`'s constants for the encodings of base types
/// (`DW_ATE_boolean` and the like), whose numbers the contract holds.
#[verifier::external_body]
fn encoding_kind(code: u8) -> (k: EncodingKind)
    ensures
        k == encoding_kind_of(code),
{
    match DwAte(code) {
        gimli::DW_ATE_boolean => EncodingKind::Boolean,
        gimli::DW_ATE_complex_float => EncodingKind::ComplexFloat,
        gimli::DW_ATE_float => EncodingKind::Float,
        gimli::DW_ATE_signed => EncodingKind::Signed,
        gimli::DW_ATE_signed_char => EncodingKind::SignedChar,
        gimli::DW_ATE_unsigned => EncodingKind::Unsigned,
        gimli::DW_ATE_unsigned_char => EncodingKind::UnsignedChar,
        _ => EncodingKind::Other,
    }
}

/// Tells `code` apart by `gimli`'s constants for the inline codes
/// (`DW_INL_inlined` and the like), whose numbers the contract holds.
#[verifier::external_body]
fn inline_kind(code: u8) -> (k: InlineKind)
    ensures
        k == inline_kind_of(code),
{
    match DwInl(code) {
        gimli::DW_INL_not_inlined => InlineKind::NotInlined,
        gimli::DW_INL_inlined => InlineKind::Inlined,
        gimli::DW_INL_declared_not_inlined => InlineKind::DeclaredNotInlined,
        gimli::DW_INL_declared_inlined => InlineKind::DeclaredInlined,
        _ => InlineKind::Other,
    }
}

impl EntryKind {
    /// The kind of entry that `tag` stands for.
    pub fn of_tag(tag: u16) -> (k: EntryKind)
        ensures
            k == entry_kind_of(tag),
    {
        entry_kind(tag)
    }
}

impl TypeKind {
    /// The kind of type that `tag` stands for.
    pub fn of_tag(tag: u16) -> (k: TypeKind)
        ensures
            k == type_kind_of(tag),
    {
        type_kind(tag)
    }
}

/// Whether a function's entry is one of its own, compiled code: no
/// declaration, no stand-in for an inlined copy, and not inlined itself.
pub open spec fn concrete(entry: FunctionEntry) -> Result<bool, EntryError> {
    if entry.declaration || entry.abstract_origin {
        Ok(false)
    } else {
        match entry.inline {
            InlineAttr::Absent => Ok(true),
            InlineAttr::OtherForm => Err(EntryError::InlineForm),
            InlineAttr::Code(code) => match inline_kind_of(code) {
                InlineKind::Inlined | InlineKind::DeclaredInlined => Ok(false),
                InlineKind::NotInlined | InlineKind::DeclaredNotInlined => Ok(true),
                InlineKind::Other => Err(EntryError::UnknownInline(code)),
            },
        }
    }
}

/// Whether `name` ends in `.s` or `.S`, as the names of assembler sources do.
pub open spec fn assembler_name(name: Seq<char>) -> bool {
    &&& name.len() >= 2
    &&& name[name.len() - 2] == '.'
    &&& (name[name.len() - 1] == 's' || name[name.len() - 1] == 'S')
}

/// Whether an entry names a source file that is no assembler source.
pub open spec fn c_source(entry: FunctionEntry) -> bool {
    match entry.decl_file {
        Some(file) => !assembler_name(file@),
        None => false,
    }
}

/// The addresses that a function's entry spans, where it gives both ends.
pub open spec fn extent(entry: FunctionEntry) -> Result<Option<CodeRange>, EntryError> {
    match entry.low_pc {
        AddrAttr::OtherForm => Err(EntryError::LowPcForm),
        AddrAttr::Absent => Ok(None),
        AddrAttr::Addr(low) => match entry.high_pc {
            AddrAttr::OtherForm => Err(EntryError::HighPcForm),
            AddrAttr::Absent => Ok(None),
            AddrAttr::Addr(high) => Ok(Some(CodeRange { start: low, end: high })),
        },
    }
}

/// Whether a base type of this encoding is passed in an integer register:
/// the integer, character and boolean types are, the floating ones are not.
pub open spec fn base_fits(encoding: EncodingAttr) -> Result<bool, EntryError> {
    match encoding {
        EncodingAttr::Absent => Err(EntryError::NoEncoding),
        EncodingAttr::OtherForm => Err(EntryError::EncodingForm),
        EncodingAttr::Code(code) => match encoding_kind_of(code) {
            EncodingKind::ComplexFloat | EncodingKind::Float => Ok(false),
            EncodingKind::Other => Err(EntryError::UnknownEncoding(code)),
            _ => Ok(true),
        },
    }
}

/// Whether a value of the type that `t` refers to is passed in an integer
/// register. Pointers, arrays and enumerations are; structures are not; a
/// typedef and a qualified type are what the type under them is; a union is
/// where all of its members are.
pub open spec fn register_fits(t: TypeAttr) -> Result<bool, EntryError>
    decreases t, 0nat,
{
    match t {
        TypeAttr::Absent => Err(EntryError::NoType),
        TypeAttr::OtherForm => Err(EntryError::TypeForm),
        TypeAttr::Unresolved => Err(EntryError::UnresolvedType),
        TypeAttr::Entry(e) => match type_kind_of(e.tag) {
            TypeKind::Base => base_fits(e.encoding),
            TypeKind::Pointer | TypeKind::Array | TypeKind::Enumeration => Ok(true),
            TypeKind::Volatile | TypeKind::Typedef | TypeKind::Const => register_fits(e.type_attr),
            TypeKind::Structure => Ok(false),
            TypeKind::Union => members_fit(*e, e.members@.len()),
            TypeKind::Other => Err(EntryError::UnknownTypeTag(e.tag)),
        },
    }
}

/// Whether the first `n` members of the union `e` are all passed in an integer
/// register. The first member that is not, or that cannot be classified,
/// decides.
pub open spec fn members_fit(e: TypeEntry, n: nat) -> Result<bool, EntryError>
    decreases e, n,
{
    if n == 0 || n > e.members@.len() {
        Ok(true)
    } else {
        match members_fit(e, (n - 1) as nat) {
            Ok(true) => register_fits(e.members@[n - 1]),
            other => other,
        }
    }
}

/// The type under the typedefs and qualifiers that `t` begins with.
pub open spec fn under_qualifiers(t: TypeAttr) -> TypeAttr
    decreases t,
{
    match t {
        TypeAttr::Entry(e) => match type_kind_of(e.tag) {
            TypeKind::Volatile | TypeKind::Typedef | TypeKind::Const => under_qualifiers(
                e.type_attr,
            ),
            _ => t,
        },
        _ => t,
    }
}

/// True if this function is concrete: no prototype, no abstract parent of an
/// inlined call, and not itself inlined. An inline attribute of another form,
/// or with a code that DWARF does not define, is an error.
pub fn is_concrete_function(entry: &FunctionEntry) -> (r: Result<bool, EntryError>)
    requires
        entry_kind_of(entry.tag) is Subprogram,
    ensures
        r == concrete(*entry),
{
    if entry.declaration || entry.abstract_origin {
        Ok(false)
    } else {
        match entry.inline {
            InlineAttr::Absent => Ok(true),
            InlineAttr::OtherForm => Err(EntryError::InlineForm),
            InlineAttr::Code(code) => match inline_kind(code) {
                InlineKind::Inlined => Ok(false),
                InlineKind::DeclaredInlined => Ok(false),
                InlineKind::NotInlined => Ok(true),
                InlineKind::DeclaredNotInlined => Ok(true),
                InlineKind::Other => Err(EntryError::UnknownInline(code)),
            },
        }
    }
}

/// True if the entry names a source file and the name does not end in `.s`
/// or `.S`.
pub fn die_has_c_source(entry: &FunctionEntry) -> (b: bool)
    ensures
        b == c_source(*entry),
{
    match &entry.decl_file {
        None => false,
        Some(file) => {
            let name: &str = file.as_str();
            let n: usize = name.unicode_len();
            if n < 2 {
                true
            } else {
                let dot: char = name.get_char(n - 2);
                let last: char = name.get_char(n - 1);
                !(dot == '.' && (last == 's' || last == 'S'))
            }
        },
    }
}

impl CodeRange {
    /// The extent of a function's entry: from its low to its high address.
    /// There is none where one of the two is missing; one that is no address
    /// is an error, the low one first.
    pub fn from_function_die(entry: &FunctionEntry) -> (r: Result<Option<CodeRange>, EntryError>)
        requires
            entry_kind_of(entry.tag) is Subprogram,
        ensures
            r == extent(*entry),
    {
        let low: u64 = match entry.low_pc {
            AddrAttr::Addr(x) => x,
            AddrAttr::OtherForm => {
                return Err(EntryError::LowPcForm);
            },
            AddrAttr::Absent => {
                return Ok(None);
            },
        };
        let high: u64 = match entry.high_pc {
            AddrAttr::Addr(x) => x,
            AddrAttr::OtherForm => {
                return Err(EntryError::HighPcForm);
            },
            AddrAttr::Absent => {
                return Ok(None);
            },
        };
        Ok(Some(CodeRange { start: low, end: high }))
    }
}

/// True if a value of the type that `t` refers to would be passed in an
/// integer register.
pub fn is_register_type(t: &TypeAttr) -> (r: Result<bool, EntryError>)
    ensures
        r == register_fits(*t),
    decreases t, 0nat,
{
    match t {
        TypeAttr::Absent => Err(EntryError::NoType),
        TypeAttr::OtherForm => Err(EntryError::TypeForm),
        TypeAttr::Unresolved => Err(EntryError::UnresolvedType),
        TypeAttr::Entry(e) => match type_kind(e.tag) {
            TypeKind::Base => match e.encoding {
                EncodingAttr::Absent => Err(EntryError::NoEncoding),
                EncodingAttr::OtherForm => Err(EntryError::EncodingForm),
                EncodingAttr::Code(code) => match encoding_kind(code) {
                    EncodingKind::ComplexFloat => Ok(false),
                    EncodingKind::Float => Ok(false),
                    EncodingKind::Other => Err(EntryError::UnknownEncoding(code)),
                    _ => Ok(true),
                },
            },
            TypeKind::Pointer => Ok(true),
            TypeKind::Array => Ok(true),
            TypeKind::Enumeration => Ok(true),
            TypeKind::Volatile => is_register_type(&e.type_attr),
            TypeKind::Typedef => is_register_type(&e.type_attr),
            TypeKind::Const => is_register_type(&e.type_attr),
            TypeKind::Structure => Ok(false),
            TypeKind::Union => union_fits(e),
            TypeKind::Other => Err(EntryError::UnknownTypeTag(e.tag)),
        },
    }
}

/// Whether all members of the union `e` are passed in an integer register.
fn union_fits(e: &TypeEntry) -> (r: Result<bool, EntryError>)
    ensures
        r == members_fit(*e, e.members@.len()),
    decreases e, 1nat,
{
    let n: usize = e.members.len();
    let mut i: usize = 0;
    while i < n
        invariant
            n == e.members@.len(),
            i <= n,
            members_fit(*e, i as nat) == Ok::<bool, EntryError>(true),
        decreases n - i,
    {
        match is_register_type(&e.members[i]) {
            Ok(true) => {},
            other => {
                proof {
                    lemma_members_decided(*e, (i + 1) as nat, n as nat);
                }
                return other;
            },
        }
        i = i + 1;
    }
    Ok(true)
}

/// Once a member has decided, the members behind it change nothing.
proof fn lemma_members_decided(e: TypeEntry, k: nat, n: nat)
    requires
        k <= n <= e.members@.len(),
        members_fit(e, k) != Ok::<bool, EntryError>(true),
    ensures
        members_fit(e, n) == members_fit(e, k),
    decreases n,
{
    if k < n {
        lemma_members_decided(e, k, (n - 1) as nat);
    }
}

/// The first `n` members of a union all fit exactly where each of them fits.
proof fn lemma_members_fit(e: TypeEntry, n: nat)
    requires
        n <= e.members@.len(),
    ensures
        members_fit(e, n) == Ok::<bool, EntryError>(true) <==> forall|i: int|
            0 <= i < n ==> register_fits(#[trigger] e.members@[i]) == Ok::<bool, EntryError>(true),
    decreases n,
{
    if n > 0 {
        lemma_members_fit(e, (n - 1) as nat);
    }
}

/// A typedef and a const or volatile qualifier change nothing: the type is
/// classified as the type under it is.
pub proof fn lemma_qualifier_keeps_fit(e: TypeEntry)
    requires
        type_kind_of(e.tag) is Typedef || type_kind_of(e.tag) is Const || type_kind_of(e.tag)
            is Volatile,
    ensures
        register_fits(TypeAttr::Entry(Box::new(e))) == register_fits(e.type_attr),
{
}

/// However many typedefs and qualifiers stand above a type, it is classified
/// as the type under them is.
pub proof fn lemma_qualifiers_keep_fit(t: TypeAttr)
    ensures
        register_fits(t) == register_fits(under_qualifiers(t)),
    decreases t,
{
    match t {
        TypeAttr::Entry(e) => match type_kind_of(e.tag) {
            TypeKind::Volatile | TypeKind::Typedef | TypeKind::Const => {
                lemma_qualifiers_keep_fit(e.type_attr);
            },
            _ => {},
        },
        _ => {},
    }
}

/// A union fits exactly where every one of its members fits; one without
/// members fits.
pub proof fn lemma_union_fits(e: TypeEntry)
    requires
        type_kind_of(e.tag) is Union,
    ensures
        register_fits(TypeAttr::Entry(Box::new(e))) == Ok::<bool, EntryError>(true) <==> forall|
            i: int,
        |
            0 <= i < e.members@.len() ==> register_fits(#[trigger] e.members@[i]) == Ok::<
                bool,
                EntryError,
            >(true),
        e.members@.len() == 0 ==> register_fits(TypeAttr::Entry(Box::new(e))) == Ok::<
            bool,
            EntryError,
        >(true),
{
    lemma_members_fit(e, e.members@.len());
}

} // verus!
