use scan_dwarf::classify::{
    die_has_c_source, is_concrete_function, is_register_type, EntryKind, TypeKind,
};
use scan_dwarf::entry::{
    AddrAttr, EncodingAttr, EntryError, FunctionEntry, InlineAttr, TypeAttr, TypeEntry,
};
use scan_dwarf::range::CodeRange;

const SUBPROGRAM: u16 = 0x2e;
const ARRAY: u16 = 0x01;
const ENUMERATION: u16 = 0x04;
const POINTER: u16 = 0x0f;
const STRUCTURE: u16 = 0x13;
const TYPEDEF: u16 = 0x16;
const UNION: u16 = 0x17;
const BASE: u16 = 0x24;
const CONST: u16 = 0x26;
const VOLATILE: u16 = 0x35;

fn function() -> FunctionEntry {
    FunctionEntry {
        offset: 0x40,
        tag: SUBPROGRAM,
        declaration: false,
        abstract_origin: false,
        inline: InlineAttr::Absent,
        decl_file: Some("main.c".to_string()),
        name: Some("main".to_string()),
        low_pc: AddrAttr::Addr(0x100),
        high_pc: AddrAttr::Addr(0x140),
        frame_base: None,
        children: vec![],
    }
}

fn node(tag: u16, encoding: EncodingAttr, type_attr: TypeAttr, members: Vec<TypeAttr>) -> TypeAttr {
    TypeAttr::Entry(Box::new(TypeEntry { tag, encoding, type_attr, members }))
}

fn base(code: u8) -> TypeAttr {
    node(BASE, EncodingAttr::Code(code), TypeAttr::Absent, vec![])
}

fn plain(tag: u16) -> TypeAttr {
    node(tag, EncodingAttr::Absent, TypeAttr::Absent, vec![])
}

fn wrap(tag: u16, inner: TypeAttr) -> TypeAttr {
    node(tag, EncodingAttr::Absent, inner, vec![])
}

fn union(members: Vec<TypeAttr>) -> TypeAttr {
    node(UNION, EncodingAttr::Absent, TypeAttr::Absent, members)
}

#[test]
fn the_tags_are_those_of_gimli() {
    assert_eq!(gimli::DW_TAG_subprogram.0, SUBPROGRAM);
    assert_eq!(gimli::DW_TAG_array_type.0, ARRAY);
    assert_eq!(gimli::DW_TAG_enumeration_type.0, ENUMERATION);
    assert_eq!(gimli::DW_TAG_pointer_type.0, POINTER);
    assert_eq!(gimli::DW_TAG_structure_type.0, STRUCTURE);
    assert_eq!(gimli::DW_TAG_typedef.0, TYPEDEF);
    assert_eq!(gimli::DW_TAG_union_type.0, UNION);
    assert_eq!(gimli::DW_TAG_base_type.0, BASE);
    assert_eq!(gimli::DW_TAG_const_type.0, CONST);
    assert_eq!(gimli::DW_TAG_volatile_type.0, VOLATILE);
}

#[test]
fn a_plain_function_is_concrete() {
    assert_eq!(is_concrete_function(&function()), Ok(true));
}

#[test]
fn declarations_and_inlined_copies_are_not_concrete() {
    let f = FunctionEntry { declaration: true, ..function() };
    assert_eq!(is_concrete_function(&f), Ok(false));
    let f = FunctionEntry { abstract_origin: true, ..function() };
    assert_eq!(is_concrete_function(&f), Ok(false));
    // They are not looked into any further.
    let f = FunctionEntry { declaration: true, inline: InlineAttr::OtherForm, ..function() };
    assert_eq!(is_concrete_function(&f), Ok(false));
}

#[test]
fn inline_codes() {
    let with = |inline| FunctionEntry { inline, ..function() };
    assert_eq!(
        is_concrete_function(&with(InlineAttr::Code(gimli::DW_INL_not_inlined.0))),
        Ok(true)
    );
    assert_eq!(is_concrete_function(&with(InlineAttr::Code(gimli::DW_INL_inlined.0))), Ok(false));
    assert_eq!(
        is_concrete_function(&with(InlineAttr::Code(gimli::DW_INL_declared_not_inlined.0))),
        Ok(true)
    );
    assert_eq!(
        is_concrete_function(&with(InlineAttr::Code(gimli::DW_INL_declared_inlined.0))),
        Ok(false)
    );
    assert_eq!(is_concrete_function(&with(InlineAttr::Code(0))), Ok(true));
    assert_eq!(is_concrete_function(&with(InlineAttr::Code(1))), Ok(false));
    assert_eq!(is_concrete_function(&with(InlineAttr::Code(2))), Ok(true));
    assert_eq!(is_concrete_function(&with(InlineAttr::Code(3))), Ok(false));
}

#[test]
fn inline_errors() {
    let with = |inline| FunctionEntry { inline, ..function() };
    assert_eq!(
        is_concrete_function(&with(InlineAttr::Code(4))),
        Err(EntryError::UnknownInline(4))
    );
    assert_eq!(is_concrete_function(&with(InlineAttr::OtherForm)), Err(EntryError::InlineForm));
}

#[test]
fn assembler_sources_are_left_out() {
    let with = |name: Option<&str>| FunctionEntry {
        decl_file: name.map(|s| s.to_string()),
        ..function()
    };
    assert!(die_has_c_source(&with(Some("main.c"))));
    assert!(!die_has_c_source(&with(Some("locore.s"))));
    assert!(!die_has_c_source(&with(Some("locore.S"))));
    assert!(!die_has_c_source(&with(Some(".s"))));
    assert!(!die_has_c_source(&with(None)));
    assert!(die_has_c_source(&with(Some("s"))));
    assert!(die_has_c_source(&with(Some(""))));
    assert!(die_has_c_source(&with(Some("a.ss"))));
    assert!(die_has_c_source(&with(Some("a.s.c"))));
    assert!(die_has_c_source(&with(Some("xs"))));
    assert!(die_has_c_source(&with(Some("gr\u{fc}n.c"))));
    assert!(!die_has_c_source(&with(Some("gr\u{fc}n.s"))));
}

#[test]
fn extent_of_a_function() {
    assert_eq!(
        CodeRange::from_function_die(&function()),
        Ok(Some(CodeRange { start: 0x100, end: 0x140 }))
    );
    let f = FunctionEntry { low_pc: AddrAttr::Absent, ..function() };
    assert_eq!(CodeRange::from_function_die(&f), Ok(None));
    let f = FunctionEntry { high_pc: AddrAttr::Absent, ..function() };
    assert_eq!(CodeRange::from_function_die(&f), Ok(None));
    let f = FunctionEntry { low_pc: AddrAttr::OtherForm, ..function() };
    assert_eq!(CodeRange::from_function_die(&f), Err(EntryError::LowPcForm));
    let f = FunctionEntry { high_pc: AddrAttr::OtherForm, ..function() };
    assert_eq!(CodeRange::from_function_die(&f), Err(EntryError::HighPcForm));
    // The low address is looked at first.
    let f =
        FunctionEntry { low_pc: AddrAttr::Absent, high_pc: AddrAttr::OtherForm, ..function() };
    assert_eq!(CodeRange::from_function_die(&f), Ok(None));
    let f =
        FunctionEntry { low_pc: AddrAttr::OtherForm, high_pc: AddrAttr::Absent, ..function() };
    assert_eq!(CodeRange::from_function_die(&f), Err(EntryError::LowPcForm));
}

#[test]
fn base_types_by_encoding() {
    assert_eq!(is_register_type(&base(gimli::DW_ATE_boolean.0)), Ok(true));
    assert_eq!(is_register_type(&base(gimli::DW_ATE_signed.0)), Ok(true));
    assert_eq!(is_register_type(&base(gimli::DW_ATE_unsigned.0)), Ok(true));
    assert_eq!(is_register_type(&base(gimli::DW_ATE_signed_char.0)), Ok(true));
    assert_eq!(is_register_type(&base(gimli::DW_ATE_unsigned_char.0)), Ok(true));
    assert_eq!(is_register_type(&base(gimli::DW_ATE_float.0)), Ok(false));
    assert_eq!(is_register_type(&base(gimli::DW_ATE_complex_float.0)), Ok(false));
    assert_eq!(is_register_type(&base(0x05)), Ok(true));
    assert_eq!(is_register_type(&base(0x04)), Ok(false));
}

#[test]
fn base_type_errors() {
    // DW_ATE_address is not classified.
    assert_eq!(is_register_type(&base(0x01)), Err(EntryError::UnknownEncoding(0x01)));
    assert_eq!(is_register_type(&base(0x10)), Err(EntryError::UnknownEncoding(0x10)));
    assert_eq!(is_register_type(&plain(BASE)), Err(EntryError::NoEncoding));
    let odd = node(BASE, EncodingAttr::OtherForm, TypeAttr::Absent, vec![]);
    assert_eq!(is_register_type(&odd), Err(EntryError::EncodingForm));
}

#[test]
fn pointers_arrays_and_enumerations_fit() {
    assert_eq!(is_register_type(&plain(POINTER)), Ok(true));
    assert_eq!(is_register_type(&plain(ARRAY)), Ok(true));
    assert_eq!(is_register_type(&plain(ENUMERATION)), Ok(true));
}

#[test]
fn structures_do_not_fit() {
    assert_eq!(is_register_type(&plain(STRUCTURE)), Ok(false));
}

#[test]
fn type_attribute_errors() {
    assert_eq!(is_register_type(&TypeAttr::Absent), Err(EntryError::NoType));
    assert_eq!(is_register_type(&TypeAttr::OtherForm), Err(EntryError::TypeForm));
    assert_eq!(is_register_type(&TypeAttr::Unresolved), Err(EntryError::UnresolvedType));
    // DW_TAG_subroutine_type is not classified.
    assert_eq!(is_register_type(&plain(0x15)), Err(EntryError::UnknownTypeTag(0x15)));
}

#[test]
fn qualifiers_do_not_change_the_class() {
    for inner in [0x05u8, 0x04, 0x02, 0x03] {
        let want = is_register_type(&base(inner));
        for tag in [TYPEDEF, CONST, VOLATILE] {
            assert_eq!(is_register_type(&wrap(tag, base(inner))), want);
            assert_eq!(is_register_type(&wrap(tag, wrap(CONST, wrap(TYPEDEF, base(inner))))), want);
        }
    }
    assert_eq!(is_register_type(&wrap(TYPEDEF, plain(STRUCTURE))), Ok(false));
    assert_eq!(is_register_type(&wrap(VOLATILE, plain(POINTER))), Ok(true));
    // An error under the qualifiers shows through them.
    assert_eq!(is_register_type(&wrap(CONST, TypeAttr::Absent)), Err(EntryError::NoType));
    assert_eq!(
        is_register_type(&wrap(TYPEDEF, wrap(CONST, base(0x01)))),
        Err(EntryError::UnknownEncoding(0x01))
    );
}

#[test]
fn a_union_fits_where_all_members_fit() {
    assert_eq!(is_register_type(&union(vec![])), Ok(true));
    assert_eq!(is_register_type(&union(vec![base(0x05), plain(POINTER)])), Ok(true));
    assert_eq!(is_register_type(&union(vec![base(0x05), base(0x04)])), Ok(false));
    assert_eq!(is_register_type(&union(vec![plain(STRUCTURE), base(0x05)])), Ok(false));
    assert_eq!(
        is_register_type(&union(vec![union(vec![base(0x07)]), wrap(TYPEDEF, base(0x08))])),
        Ok(true)
    );
    assert_eq!(is_register_type(&union(vec![union(vec![base(0x04)]), base(0x05)])), Ok(false));
    assert_eq!(is_register_type(&wrap(TYPEDEF, union(vec![base(0x04)]))), Ok(false));
}

#[test]
fn the_first_member_that_does_not_fit_decides() {
    // An error behind a member that does not fit is not met.
    assert_eq!(is_register_type(&union(vec![base(0x04), TypeAttr::Absent])), Ok(false));
    // One before it is.
    assert_eq!(
        is_register_type(&union(vec![base(0x05), TypeAttr::Absent, base(0x04)])),
        Err(EntryError::NoType)
    );
    assert_eq!(
        is_register_type(&union(vec![TypeAttr::Unresolved, base(0x04)])),
        Err(EntryError::UnresolvedType)
    );
}

#[test]
fn kinds_of_entries_by_tag() {
    assert_eq!(EntryKind::of_tag(gimli::DW_TAG_subprogram.0), EntryKind::Subprogram);
    assert_eq!(EntryKind::of_tag(gimli::DW_TAG_formal_parameter.0), EntryKind::FormalParameter);
    assert_eq!(EntryKind::of_tag(gimli::DW_TAG_variable.0), EntryKind::Variable);
    assert_eq!(EntryKind::of_tag(0x2e), EntryKind::Subprogram);
    assert_eq!(EntryKind::of_tag(0x05), EntryKind::FormalParameter);
    assert_eq!(EntryKind::of_tag(0x34), EntryKind::Variable);
    assert_eq!(EntryKind::of_tag(gimli::DW_TAG_lexical_block.0), EntryKind::Other);
    assert_eq!(EntryKind::of_tag(0), EntryKind::Other);
    assert_eq!(EntryKind::of_tag(u16::MAX), EntryKind::Other);
}

#[test]
fn kinds_of_types_by_tag() {
    assert_eq!(TypeKind::of_tag(BASE), TypeKind::Base);
    assert_eq!(TypeKind::of_tag(POINTER), TypeKind::Pointer);
    assert_eq!(TypeKind::of_tag(ARRAY), TypeKind::Array);
    assert_eq!(TypeKind::of_tag(ENUMERATION), TypeKind::Enumeration);
    assert_eq!(TypeKind::of_tag(VOLATILE), TypeKind::Volatile);
    assert_eq!(TypeKind::of_tag(TYPEDEF), TypeKind::Typedef);
    assert_eq!(TypeKind::of_tag(CONST), TypeKind::Const);
    assert_eq!(TypeKind::of_tag(STRUCTURE), TypeKind::Structure);
    assert_eq!(TypeKind::of_tag(UNION), TypeKind::Union);
    assert_eq!(TypeKind::of_tag(SUBPROGRAM), TypeKind::Other);
    // DW_TAG_reference_type
    assert_eq!(TypeKind::of_tag(0x10), TypeKind::Other);
}
