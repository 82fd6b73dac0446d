//! Debugging information entries, as far as the scan reads them: the entry of
//! a function, its parameters and variables, and the types of the parameters.

use crate::frame_base::FrameBaseAttr;
use vstd::prelude::*;

verus! {

/// The inline attribute of a function.
#[derive(Clone, Copy, Debug, PartialEq, Eq, Structural)]
pub enum InlineAttr {
    Absent,
    /// An inline code, as DWARF numbers them.
    Code(u8),
    /// A value of any other form.
    OtherForm,
}

/// One of the two address attributes of a function.
#[derive(Clone, Copy, Debug, PartialEq, Eq, Structural)]
pub enum AddrAttr {
    Absent,
    Addr(u64),
    /// A value of any other form.
    OtherForm,
}

/// The encoding attribute of a base type.
#[derive(Clone, Copy, Debug, PartialEq, Eq, Structural)]
pub enum EncodingAttr {
    Absent,
    /// An encoding code, as DWARF numbers them.
    Code(u8),
    /// A value of any other form.
    OtherForm,
}

/// The type attribute of an entry.
#[derive(Debug)]
pub enum TypeAttr {
    Absent,
    /// A value that is no reference into the unit.
    OtherForm,
    /// A reference that leads to no entry.
    Unresolved,
    /// The entry that the attribute refers to.
    Entry(Box<TypeEntry>),
}

/// The entry of a type.
#[derive(Debug)]
pub struct TypeEntry {
    /// The tag of the entry, as DWARF numbers them.
    pub tag: u16,
    pub encoding: EncodingAttr,
    /// The type that this one is made from.
    pub type_attr: TypeAttr,
    /// The type attribute of each child of the entry, in order.
    pub members: Vec<TypeAttr>,
}

/// A child of a function's entry: a parameter, a variable or something else.
#[derive(Debug)]
pub struct ChildEntry {
    /// Where the entry stands in the debugging information.
    pub offset: u64,
    /// The tag of the entry, as DWARF numbers them.
    pub tag: u16,
    pub name: Option<String>,
    /// Whether the entry is marked as made by the compiler.
    pub artificial: bool,
    pub type_attr: TypeAttr,
    /// The bytes of the location expression, where the entry has one.
    pub location: Option<Vec<u8>>,
}

/// An entry that stands directly in a compilation unit.
#[derive(Debug)]
pub struct FunctionEntry {
    /// Where the entry stands in the debugging information.
    pub offset: u64,
    /// The tag of the entry, as DWARF numbers them.
    pub tag: u16,
    /// Whether the entry only declares the function.
    pub declaration: bool,
    /// Whether the entry stands for an inlined copy of another.
    pub abstract_origin: bool,
    pub inline: InlineAttr,
    /// The name of the source file, where the entry gives one that can be read.
    pub decl_file: Option<String>,
    pub name: Option<String>,
    pub low_pc: AddrAttr,
    pub high_pc: AddrAttr,
    pub frame_base: Option<FrameBaseAttr>,
    pub children: Vec<ChildEntry>,
}

/// Why an entry could not be read. Such an entry ends the scan of its file.
#[derive(Clone, Copy, Debug, PartialEq, Eq, Structural)]
pub enum EntryError {
    /// The inline attribute holds a code that DWARF does not define.
    UnknownInline(u8),
    /// The inline attribute holds no inline code.
    InlineForm,
    /// The low address of a function is no address.
    LowPcForm,
    /// The high address of a function is no address.
    HighPcForm,
    /// An entry whose type is asked for has no type attribute.
    NoType,
    /// A type attribute is no reference into the unit.
    TypeForm,
    /// A type attribute refers to no entry.
    UnresolvedType,
    /// A base type has no encoding.
    NoEncoding,
    /// The encoding attribute of a base type holds no encoding code.
    EncodingForm,
    /// A base type has an encoding that is not classified.
    UnknownEncoding(u8),
    /// The entry of a type has a tag that is not classified.
    UnknownTypeTag(u16),
    /// The location expression of the saved-arguments variable did not decode.
    Decode,
}

} // verus!
