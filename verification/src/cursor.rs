//! Reading unsigned big-endian integers at a cursor.
//!
//! A reader takes the bytes and the cursor. Where enough bytes are left it
//! returns the value and moves the cursor behind it; where not, it reports
//! the offset at which it was asked to read.

use crate::error::{Field, PoolError};
use vstd::prelude::*;

verus! {

/// What reading at an offset gives: the value with the offset behind it,
/// or the failure.
pub type Parsed<V> = Result<(V, int), PoolError>;

/// Whether `width` bytes are left at offset `at`.
pub open spec fn has_bytes(bytes: Seq<u8>, at: int, width: int) -> bool {
    0 <= at && at + width <= bytes.len()
}

/// The value of the two bytes at `at`, the first being the higher.
pub open spec fn be16(bytes: Seq<u8>, at: int) -> int {
    bytes[at] as int * 0x100 + bytes[at + 1] as int
}

/// The value of the four bytes at `at`, the first being the highest.
pub open spec fn be32(bytes: Seq<u8>, at: int) -> int {
    be16(bytes, at) * 0x1_0000 + be16(bytes, at + 2)
}

/// The value of the eight bytes at `at`, the first being the highest.
pub open spec fn be64(bytes: Seq<u8>, at: int) -> int {
    be32(bytes, at) * 0x1_0000_0000 + be32(bytes, at + 4)
}

/// One byte at `at`.
pub open spec fn u1_at(bytes: Seq<u8>, at: int) -> Parsed<u8> {
    if has_bytes(bytes, at, 1) {
        Ok((bytes[at], at + 1))
    } else {
        Err(PoolError::UnexpectedEnd { reading: Field::U1, offset: at as usize })
    }
}

/// Two bytes at `at`, as one number.
pub open spec fn u2_at(bytes: Seq<u8>, at: int) -> Parsed<u16> {
    if has_bytes(bytes, at, 2) {
        Ok((be16(bytes, at) as u16, at + 2))
    } else {
        Err(PoolError::UnexpectedEnd { reading: Field::U2, offset: at as usize })
    }
}

/// Four bytes at `at`, as one number.
pub open spec fn u4_at(bytes: Seq<u8>, at: int) -> Parsed<u32> {
    if has_bytes(bytes, at, 4) {
        Ok((be32(bytes, at) as u32, at + 4))
    } else {
        Err(PoolError::UnexpectedEnd { reading: Field::U4, offset: at as usize })
    }
}

/// Eight bytes at `at`, as one number.
pub open spec fn u8_at(bytes: Seq<u8>, at: int) -> Parsed<u64> {
    if has_bytes(bytes, at, 8) {
        Ok((be64(bytes, at) as u64, at + 8))
    } else {
        Err(PoolError::UnexpectedEnd { reading: Field::U8, offset: at as usize })
    }
}

/// Whether a reader that returned `read` and left the cursor at `cursor`
/// did what `parsed` says. After a failure the cursor is not to be used.
pub open spec fn read_as<V>(read: Result<V, PoolError>, cursor: usize, parsed: Parsed<V>) -> bool {
    match parsed {
        Ok((value, next)) => read == Ok::<V, PoolError>(value) && cursor == next,
        Err(error) => read == Err::<V, PoolError>(error),
    }
}

/// Whether `width` bytes are left at `at`.
fn bytes_left(bytes: &[u8], at: usize, width: usize) -> (enough: bool)
    ensures
        enough == has_bytes(bytes@, at as int, width as int),
        enough ==> at + width <= usize::MAX,
{
    at <= bytes.len() && bytes.len() - at >= width
}

fn two_at(bytes: &[u8], at: usize) -> (value: u16)
    requires
        has_bytes(bytes@, at as int, 2),
    ensures
        value == be16(bytes@, at as int),
{
    (bytes[at] as u16) * 0x100 + (bytes[at + 1] as u16)
}

fn four_at(bytes: &[u8], at: usize) -> (value: u32)
    requires
        has_bytes(bytes@, at as int, 4),
    ensures
        value == be32(bytes@, at as int),
{
    assert(bytes@.len() == bytes.len());
    (two_at(bytes, at) as u32) * 0x1_0000 + (two_at(bytes, at + 2) as u32)
}

fn eight_at(bytes: &[u8], at: usize) -> (value: u64)
    requires
        has_bytes(bytes@, at as int, 8),
    ensures
        value == be64(bytes@, at as int),
{
    assert(bytes@.len() == bytes.len());
    (four_at(bytes, at) as u64) * 0x1_0000_0000 + (four_at(bytes, at + 4) as u64)
}

/// Reads one byte.
pub fn read_u1(bytes: &[u8], ix: &mut usize) -> (read: Result<u8, PoolError>)
    ensures
        read_as(read, *final(ix), u1_at(bytes@, *old(ix) as int)),
{
    if !bytes_left(bytes, *ix, 1) {
        return Err(PoolError::UnexpectedEnd { reading: Field::U1, offset: *ix });
    }
    let value: u8 = bytes[*ix];
    *ix += 1;
    Ok(value)
}

/// Reads two bytes as one number.
pub fn read_u2(bytes: &[u8], ix: &mut usize) -> (read: Result<u16, PoolError>)
    ensures
        read_as(read, *final(ix), u2_at(bytes@, *old(ix) as int)),
{
    if !bytes_left(bytes, *ix, 2) {
        return Err(PoolError::UnexpectedEnd { reading: Field::U2, offset: *ix });
    }
    let value: u16 = two_at(bytes, *ix);
    *ix += 2;
    Ok(value)
}

/// Reads four bytes as one number.
pub fn read_u4(bytes: &[u8], ix: &mut usize) -> (read: Result<u32, PoolError>)
    ensures
        read_as(read, *final(ix), u4_at(bytes@, *old(ix) as int)),
{
    if !bytes_left(bytes, *ix, 4) {
        return Err(PoolError::UnexpectedEnd { reading: Field::U4, offset: *ix });
    }
    let value: u32 = four_at(bytes, *ix);
    *ix += 4;
    Ok(value)
}

/// Reads eight bytes as one number.
pub fn read_u8(bytes: &[u8], ix: &mut usize) -> (read: Result<u64, PoolError>)
    ensures
        read_as(read, *final(ix), u8_at(bytes@, *old(ix) as int)),
{
    if !bytes_left(bytes, *ix, 8) {
        return Err(PoolError::UnexpectedEnd { reading: Field::U8, offset: *ix });
    }
    let value: u64 = eight_at(bytes, *ix);
    *ix += 8;
    Ok(value)
}

} // verus!
