//! Location expressions: the operations that their bytes hold, decoded by
//! `gimli`.

use gimli::{EndianSlice, Format, Operation, RunTimeEndian};
use vstd::prelude::*;
use vstd::slice::slice_subrange;

verus! {

/// How the expressions of one compilation unit are encoded.
#[derive(Clone, Copy, Debug, PartialEq, Eq, Structural)]
pub struct Encoding {
    /// The size of an address, in bytes.
    pub address_size: u8,
    /// Whether the unit is in the 64-bit DWARF format.
    pub dwarf64: bool,
    /// The DWARF version of the unit.
    pub version: u16,
    /// Whether the object file stores numbers big end first.
    pub big_endian: bool,
}

/// One operation of a location expression, as far as the scan reads it.
#[derive(Clone, Copy, Debug, PartialEq, Eq, Structural)]
pub enum LocationOp {
    /// The value of a register plus a constant.
    RegisterOffset { register: u16, offset: i64 },
    /// The frame base plus a constant.
    FrameOffset { offset: i64 },
    /// Any other operation.
    Other,
}

/// The bytes of an expression did not decode to operations.
#[derive(Clone, Copy, Debug, PartialEq, Eq, Structural)]
pub struct DecodeError {}

/// `gimli::Error`, the error of `gimli`'s decoding. Nothing is known of what
/// a value of it holds.
#[verifier::external_type_specification]
#[verifier::external_body]
pub struct ExGimliError(gimli::Error);

/// What `gimli` reads at the head of `bytes`: the operation and the number of
/// bytes that follow it, or nothing where the bytes do not decode.
pub uninterp spec fn parsed_operation(
    bytes: Seq<u8>,
    address_size: u8,
    dwarf64: bool,
    version: u16,
    big_endian: bool,
) -> Option<(LocationOp, nat)>;

/// `gimli::Operation::parse` on `bytes`. It fails or reads one operation, the
/// same on the same bytes and encoding; an operation takes at least the byte
/// of its code, so fewer bytes follow it than were given.
#[verifier::external_body]
fn parse_operation(bytes: &[u8], enc: &Encoding) -> (r: Result<(LocationOp, usize), gimli::Error>)
    ensures
        r is Ok <==> parsed_operation(
            bytes@,
            enc.address_size,
            enc.dwarf64,
            enc.version,
            enc.big_endian,
        ) is Some,
        r matches Ok(p) ==> p.1 < bytes.len() && parsed_operation(
            bytes@,
            enc.address_size,
            enc.dwarf64,
            enc.version,
            enc.big_endian,
        ) == Some((p.0, p.1 as nat)),
{
    let endian = if enc.big_endian { RunTimeEndian::Big } else { RunTimeEndian::Little };
    let format = if enc.dwarf64 { Format::Dwarf64 } else { Format::Dwarf32 };
    let encoding = gimli::Encoding { address_size: enc.address_size, format, version: enc.version };
    let mut input = EndianSlice::new(bytes, endian);
    let op = match Operation::parse(&mut input, encoding)? {
        Operation::RegisterOffset { register, offset, .. } => {
            LocationOp::RegisterOffset { register: register.0, offset }
        },
        Operation::FrameOffset { offset } => LocationOp::FrameOffset { offset },
        _ => LocationOp::Other,
    };
    Ok((op, input.len()))
}

/// The operation at the head of `bytes` and the number of bytes behind it.
pub open spec fn decoded(bytes: Seq<u8>, enc: Encoding) -> Option<(LocationOp, nat)> {
    parsed_operation(bytes, enc.address_size, enc.dwarf64, enc.version, enc.big_endian)
}

/// The last `rest` bytes of `bytes`.
pub open spec fn tail_of(bytes: Seq<u8>, rest: nat) -> Seq<u8> {
    bytes.skip(bytes.len() - rest)
}

/// The number of operations that `bytes` hold, or nothing where one of them
/// does not decode.
pub open spec fn operation_count(bytes: Seq<u8>, enc: Encoding) -> Option<nat>
    decreases bytes.len(),
{
    if bytes.len() == 0 {
        Some(0)
    } else {
        match decoded(bytes, enc) {
            Some((_, rest)) => if rest < bytes.len() {
                match operation_count(tail_of(bytes, rest), enc) {
                    Some(n) => Some(n + 1),
                    None => None,
                }
            } else {
                None
            },
            None => None,
        }
    }
}

/// Reads the operation at the head of `bytes`. Returns it with the bytes that
/// follow it, nothing where `bytes` is empty, and the error where the bytes do
/// not decode.
pub fn next_operation<'a>(bytes: &'a [u8], enc: &Encoding) -> (r: Result<
    Option<(LocationOp, &'a [u8])>,
    DecodeError,
>)
    ensures
        bytes@.len() == 0 ==> r == Ok::<Option<(LocationOp, &[u8])>, DecodeError>(None),
        bytes@.len() > 0 ==> match decoded(bytes@, *enc) {
            Some((op, rest)) => rest < bytes@.len() && (r matches Ok(Some(p)) && p.0 == op && p.1@
                == tail_of(bytes@, rest)),
            None => r == Err::<Option<(LocationOp, &[u8])>, DecodeError>(DecodeError {  }),
        },
{
    let len: usize = bytes.len();
    if len == 0 {
        return Ok(None);
    }
    match parse_operation(bytes, enc) {
        Ok((op, rest)) => {
            let tail = slice_subrange(bytes, len - rest, len);
            Ok(Some((op, tail)))
        },
        Err(_) => Err(DecodeError {  }),
    }
}

/// Counts the operations in `bytes`, or fails where one does not decode.
pub fn count_operations(bytes: &[u8], enc: &Encoding) -> (r: Result<usize, DecodeError>)
    ensures
        match operation_count(bytes@, *enc) {
            Some(n) => r is Ok && r->Ok_0 == n && n <= bytes@.len(),
            None => r == Err::<usize, DecodeError>(DecodeError {  }),
        },
{
    let len: usize = bytes.len();
    let mut tail: &[u8] = bytes;
    let mut count: usize = 0;
    loop
        invariant
            len == bytes@.len(),
            count + tail@.len() <= len,
            operation_count(bytes@, *enc) == match operation_count(tail@, *enc) {
                Some(m) => Some((m + count) as nat),
                None => None,
            },
        decreases tail@.len(),
    {
        match next_operation(tail, enc) {
            Ok(Some((_, rest))) => {
                tail = rest;
                count = count + 1;
            },
            Ok(None) => {
                return Ok(count);
            },
            Err(e) => {
                return Err(e);
            },
        }
    }
}

} // verus!
