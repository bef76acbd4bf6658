//! Decoding: from the bytes of a class file to the entries of its pool.
//!
//! Each entry starts with a tag of one byte, which says what follows. A
//! reference is read as a raw index of two bytes. The entries are read one
//! after the other; what one entry is does not depend on any other.

use crate::cursor::{
    has_bytes, read_as, read_u1, read_u2, read_u4, read_u8, u1_at, u2_at, u4_at, u8_at, Parsed,
};
use crate::entry::{BootstrapMethodRef, ConstantPoolEntry, ConstantPoolRef};
use crate::error::{Field, PoolError};
use crate::kinds::ReferenceKind;
use crate::text::{java_cesu8_text, utf8_entry};
use std::borrow::Cow;
use vstd::prelude::*;
use vstd::slice::slice_subrange;

verus! {

/// An entry as specifications see it, with its text as a sequence of
/// characters.
pub type EntryView = ConstantPoolEntry<Seq<char>>;

/// What decoding an entry at an offset gives.
pub type ParsedEntry = Parsed<EntryView>;

/// The signed number with the same 32 bits.
pub open spec fn signed32(bits: u32) -> i32 {
    if bits < 0x8000_0000 {
        bits as i32
    } else {
        (bits - 0x1_0000_0000) as i32
    }
}

/// The signed number with the same 64 bits.
pub open spec fn signed64(bits: u64) -> i64 {
    if bits < 0x8000_0000_0000_0000 {
        bits as i64
    } else {
        (bits - 0x1_0000_0000_0000_0000) as i64
    }
}

/// A raw reference at `at`.
pub open spec fn ref_at(bytes: Seq<u8>, at: int) -> Parsed<ConstantPoolRef> {
    match u2_at(bytes, at) {
        Ok((index, next)) => Ok((ConstantPoolRef::Unresolved(index), next)),
        Err(error) => Err(error),
    }
}

/// Two raw references, one behind the other, at `at`.
pub open spec fn ref_pair_at(bytes: Seq<u8>, at: int) -> Parsed<(ConstantPoolRef, ConstantPoolRef)> {
    match ref_at(bytes, at) {
        Ok((first, middle)) => match ref_at(bytes, middle) {
            Ok((second, next)) => Ok(((first, second), next)),
            Err(error) => Err(error),
        },
        Err(error) => Err(error),
    }
}

/// Text at `at`: a length of two bytes, then as many bytes of modified
/// UTF-8.
pub open spec fn utf8_at(bytes: Seq<u8>, at: int) -> ParsedEntry {
    match u2_at(bytes, at) {
        Ok((length, start)) => if !has_bytes(bytes, start, length as int) {
            Err(PoolError::UnexpectedEnd { reading: Field::Utf8, offset: start as usize })
        } else {
            match java_cesu8_text(bytes.subrange(start, start + length)) {
                Some(text) => Ok((ConstantPoolEntry::Utf8(text), start + length)),
                None => Err(
                    PoolError::MalformedUtf8 {
                        start: start as usize,
                        end: (start + length) as usize,
                    },
                ),
            }
        },
        Err(error) => Err(error),
    }
}

/// A signed number of four bytes at `at`.
pub open spec fn integer_at(bytes: Seq<u8>, at: int) -> ParsedEntry {
    match u4_at(bytes, at) {
        Ok((bits, next)) => Ok((ConstantPoolEntry::Integer(signed32(bits)), next)),
        Err(error) => Err(error),
    }
}

/// The four bytes of a number with a fraction at `at`.
pub open spec fn float_at(bytes: Seq<u8>, at: int) -> ParsedEntry {
    match u4_at(bytes, at) {
        Ok((bits, next)) => Ok((ConstantPoolEntry::Float(bits), next)),
        Err(error) => Err(error),
    }
}

/// A signed number of eight bytes at `at`.
pub open spec fn long_at(bytes: Seq<u8>, at: int) -> ParsedEntry {
    match u8_at(bytes, at) {
        Ok((bits, next)) => Ok((ConstantPoolEntry::Long(signed64(bits)), next)),
        Err(error) => Err(error),
    }
}

/// The eight bytes of a number with a fraction at `at`.
pub open spec fn double_at(bytes: Seq<u8>, at: int) -> ParsedEntry {
    match u8_at(bytes, at) {
        Ok((bits, next)) => Ok((ConstantPoolEntry::Double(bits), next)),
        Err(error) => Err(error),
    }
}

/// A class at `at`: the reference to its name.
pub open spec fn class_at(bytes: Seq<u8>, at: int) -> ParsedEntry {
    match ref_at(bytes, at) {
        Ok((name, next)) => Ok((ConstantPoolEntry::ClassInfo(name), next)),
        Err(error) => Err(error),
    }
}

/// A string constant at `at`: the reference to its text.
pub open spec fn string_at(bytes: Seq<u8>, at: int) -> ParsedEntry {
    match ref_at(bytes, at) {
        Ok((value, next)) => Ok((ConstantPoolEntry::String(value), next)),
        Err(error) => Err(error),
    }
}

/// A field at `at`: the references to its class and to its name and type.
pub open spec fn fieldref_at(bytes: Seq<u8>, at: int) -> ParsedEntry {
    match ref_pair_at(bytes, at) {
        Ok(((class, member), next)) => Ok((ConstantPoolEntry::FieldRef(class, member), next)),
        Err(error) => Err(error),
    }
}

/// A method of a class at `at`.
pub open spec fn methodref_at(bytes: Seq<u8>, at: int) -> ParsedEntry {
    match ref_pair_at(bytes, at) {
        Ok(((class, member), next)) => Ok((ConstantPoolEntry::MethodRef(class, member), next)),
        Err(error) => Err(error),
    }
}

/// A method of an interface at `at`.
pub open spec fn interfacemethodref_at(bytes: Seq<u8>, at: int) -> ParsedEntry {
    match ref_pair_at(bytes, at) {
        Ok(((class, member), next)) => Ok(
            (ConstantPoolEntry::InterfaceMethodRef(class, member), next),
        ),
        Err(error) => Err(error),
    }
}

/// A name and a descriptor at `at`.
pub open spec fn nameandtype_at(bytes: Seq<u8>, at: int) -> ParsedEntry {
    match ref_pair_at(bytes, at) {
        Ok(((name, descriptor), next)) => Ok(
            (ConstantPoolEntry::NameAndType(name, descriptor), next),
        ),
        Err(error) => Err(error),
    }
}

/// A method handle at `at`: the code of its access mode in one byte, then
/// the reference to its member.
pub open spec fn methodhandle_at(bytes: Seq<u8>, at: int) -> ParsedEntry {
    match u1_at(bytes, at) {
        Ok((code, middle)) => match ReferenceKind::of_code(code) {
            Some(mode) => match ref_at(bytes, middle) {
                Ok((member, next)) => Ok((ConstantPoolEntry::MethodHandle(mode, member), next)),
                Err(error) => Err(error),
            },
            None => Err(PoolError::UnknownReferenceKind { code, offset: at as usize }),
        },
        Err(error) => Err(error),
    }
}

/// A method type at `at`: the reference to its descriptor.
pub open spec fn methodtype_at(bytes: Seq<u8>, at: int) -> ParsedEntry {
    match ref_at(bytes, at) {
        Ok((descriptor, next)) => Ok((ConstantPoolEntry::MethodType(descriptor), next)),
        Err(error) => Err(error),
    }
}

/// A dynamic call site at `at`: the index of its bootstrap method, then
/// the reference to its name and type.
pub open spec fn invokedynamic_at(bytes: Seq<u8>, at: int) -> ParsedEntry {
    match u2_at(bytes, at) {
        Ok((bootstrap, middle)) => match ref_at(bytes, middle) {
            Ok((member, next)) => Ok(
                (
                    ConstantPoolEntry::InvokeDynamic(
                        BootstrapMethodRef::Unresolved(bootstrap),
                        member,
                    ),
                    next,
                ),
            ),
            Err(error) => Err(error),
        },
        Err(error) => Err(error),
    }
}

/// The entry whose tag was read just before `at`.
pub open spec fn tagged_at(bytes: Seq<u8>, tag: u8, at: int) -> ParsedEntry {
    if tag == 1 {
        utf8_at(bytes, at)
    } else if tag == 3 {
        integer_at(bytes, at)
    } else if tag == 4 {
        float_at(bytes, at)
    } else if tag == 5 {
        long_at(bytes, at)
    } else if tag == 6 {
        double_at(bytes, at)
    } else if tag == 7 {
        class_at(bytes, at)
    } else if tag == 8 {
        string_at(bytes, at)
    } else if tag == 9 {
        fieldref_at(bytes, at)
    } else if tag == 10 {
        methodref_at(bytes, at)
    } else if tag == 11 {
        interfacemethodref_at(bytes, at)
    } else if tag == 12 {
        nameandtype_at(bytes, at)
    } else if tag == 15 {
        methodhandle_at(bytes, at)
    } else if tag == 16 {
        methodtype_at(bytes, at)
    } else if tag == 18 {
        invokedynamic_at(bytes, at)
    } else {
        Err(PoolError::UnknownTag { tag, offset: (at - 1) as usize })
    }
}

/// The entry at `at`: its tag, then what the tag announces.
pub open spec fn entry_at(bytes: Seq<u8>, at: int) -> ParsedEntry {
    match u1_at(bytes, at) {
        Ok((tag, body)) => tagged_at(bytes, tag, body),
        Err(error) => Err(error),
    }
}

/// Whether an entry takes two slots in the pool: a number of eight bytes
/// does, no other.
pub open spec fn is_wide<T>(entry: ConstantPoolEntry<T>) -> bool {
    entry is Long || entry is Double
}

/// The entries from `at` on that fill the slots from `index` up to
/// `count`. A number of eight bytes is followed by an unused entry, which
/// takes its second slot.
pub open spec fn entries_at(bytes: Seq<u8>, at: int, index: int, count: int) -> Parsed<
    Seq<EntryView>,
>
    decreases count + 1 - index,
{
    if index >= count {
        Ok((Seq::<EntryView>::empty(), at))
    } else {
        match entry_at(bytes, at) {
            Ok((entry, next)) => match entries_at(
                bytes,
                next,
                if is_wide(entry) {
                    index + 2
                } else {
                    index + 1
                },
                count,
            ) {
                Ok((rest, end)) => Ok(
                    (
                        if is_wide(entry) {
                            seq![entry, ConstantPoolEntry::Unused] + rest
                        } else {
                            seq![entry] + rest
                        },
                        end,
                    ),
                ),
                Err(error) => Err(error),
            },
            Err(error) => Err(error),
        }
    }
}

/// The pool of `count` slots whose entries start at `at`: the reserved
/// entry at index 0, which takes no bytes, then the entries that are read.
pub open spec fn pool_at(bytes: Seq<u8>, at: int, count: int) -> Parsed<Seq<EntryView>> {
    match entries_at(bytes, at, 1, count) {
        Ok((entries, end)) => Ok((seq![ConstantPoolEntry::Zero] + entries, end)),
        Err(error) => Err(error),
    }
}

/// Whether a reader that returned `read` and left the cursor at `cursor`
/// did what `parsed` says.
pub open spec fn entry_read_as<'a>(
    read: Result<ConstantPoolEntry<Cow<'a, str>>, PoolError>,
    cursor: usize,
    parsed: ParsedEntry,
) -> bool {
    match parsed {
        Ok((entry, next)) => read is Ok && read->Ok_0.deep_view() == entry && cursor == next,
        Err(error) => read == Err::<ConstantPoolEntry<Cow<'a, str>>, PoolError>(error),
    }
}

/// Whether a reader that returned `read` and left the cursor at `cursor`
/// did what `parsed` says.
pub open spec fn pool_read_as<'a>(
    read: Result<Vec<ConstantPoolEntry<Cow<'a, str>>>, PoolError>,
    cursor: usize,
    parsed: Parsed<Seq<EntryView>>,
) -> bool {
    match parsed {
        Ok((entries, next)) => read is Ok && read->Ok_0.deep_view() == entries && cursor == next,
        Err(error) => read == Err::<Vec<ConstantPoolEntry<Cow<'a, str>>>, PoolError>(error),
    }
}

/// Whether every reference in the pool is raw.
pub open spec fn all_raw<T>(pool: Seq<ConstantPoolEntry<T>>) -> bool {
    forall|index: int, slot: int|
        0 <= index < pool.len() && 0 <= slot < pool[index].refs().len()
            ==> #[trigger] pool[index].refs()[slot] is Unresolved
}

/// Whether every number of eight bytes is followed by an unused entry,
/// and no other entry is.
pub open spec fn wide_in_two_slots<T>(pool: Seq<ConstantPoolEntry<T>>) -> bool {
    &&& forall|index: int|
        0 <= index < pool.len() && is_wide(#[trigger] pool[index]) ==> index + 1 < pool.len()
            && pool[index + 1] is Unused
    &&& forall|index: int|
        0 <= index < pool.len() && (#[trigger] pool[index]) is Unused ==> 0 < index && is_wide(
            pool[index - 1],
        )
}

/// An entry that was decoded is not the reserved entry nor an unused one,
/// its references are raw, and it took at least its tag from the bytes.
pub proof fn lemma_entry_decoded(bytes: Seq<u8>, at: int)
    ensures
        match entry_at(bytes, at) {
            Ok((entry, next)) => {
                &&& !(entry is Zero) && !(entry is Unused)
                &&& forall|slot: int|
                    0 <= slot < entry.refs().len() ==> #[trigger] entry.refs()[slot] is Unresolved
                &&& 0 <= at < next <= bytes.len()
            },
            Err(_) => true,
        },
{
}

/// The entries that were decoded for the slots from `index` up to `count`
/// fill them: they are as many, or one more where the last is a number of
/// eight bytes. Their references are raw, and each number of eight bytes
/// is followed by an unused entry.
pub proof fn lemma_entries_decoded(bytes: Seq<u8>, at: int, index: int, count: int)
    ensures
        match entries_at(bytes, at, index, count) {
            Ok((entries, end)) => {
                &&& all_raw(entries)
                &&& wide_in_two_slots(entries)
                &&& forall|k: int| 0 <= k < entries.len() ==> !((#[trigger] entries[k]) is Zero)
                &&& index >= count ==> entries.len() == 0 && end == at
                &&& index < count ==> count - index <= entries.len() <= count - index + 1
                &&& index < count ==> !(entries[0] is Unused) && 0 <= at < end <= bytes.len()
            },
            Err(_) => true,
        },
    decreases count + 1 - index,
{
    if index < count {
        match entry_at(bytes, at) {
            Ok((entry, next)) => {
                let after = if is_wide(entry) {
                    index + 2
                } else {
                    index + 1
                };
                lemma_entries_decoded(bytes, next, after, count);
            },
            Err(_) => {},
        }
    }
}

/// A pool that was decoded starts with the reserved entry, which occurs
/// nowhere else. It fills its slots: it has as many entries as slots, or
/// one more where the last is a number of eight bytes. Every reference is
/// raw, and each number of eight bytes is followed by an unused entry.
pub proof fn lemma_pool_decoded(bytes: Seq<u8>, at: int, count: int)
    ensures
        match pool_at(bytes, at, count) {
            Ok((pool, end)) => {
                &&& pool[0] is Zero
                &&& forall|k: int| 1 <= k < pool.len() ==> !((#[trigger] pool[k]) is Zero)
                &&& all_raw(pool)
                &&& wide_in_two_slots(pool)
                &&& count <= 1 ==> pool.len() == 1 && end == at
                &&& count > 1 ==> count <= pool.len() <= count + 1
            },
            Err(_) => true,
        },
{
    lemma_entries_decoded(bytes, at, 1, count);
}

fn to_signed32(bits: u32) -> (value: i32)
    ensures
        value == signed32(bits),
{
    if bits < 0x8000_0000 {
        bits as i32
    } else {
        ((bits - 0x8000_0000) as i32) + i32::MIN
    }
}

fn to_signed64(bits: u64) -> (value: i64)
    ensures
        value == signed64(bits),
{
    if bits < 0x8000_0000_0000_0000 {
        bits as i64
    } else {
        ((bits - 0x8000_0000_0000_0000) as i64) + i64::MIN
    }
}

pub fn read_unresolved_cp_ref(bytes: &[u8], ix: &mut usize) -> (read: Result<
    ConstantPoolRef,
    PoolError,
>)
    ensures
        read_as(read, *final(ix), ref_at(bytes@, *old(ix) as int)),
{
    Ok(ConstantPoolRef::Unresolved(read_u2(bytes, ix)?))
}

/// Reads a text entry: its length, then its bytes, which are decoded.
pub fn read_constant_utf8<'a>(bytes: &'a [u8], ix: &mut usize) -> (read: Result<
    ConstantPoolEntry<Cow<'a, str>>,
    PoolError,
>)
    ensures
        entry_read_as(read, *final(ix), utf8_at(bytes@, *old(ix) as int)),
{
    let length: usize = read_u2(bytes, ix)? as usize;
    let start: usize = *ix;
    if bytes.len() - start < length {
        return Err(PoolError::UnexpectedEnd { reading: Field::Utf8, offset: start });
    }
    let modified_utf8_data = slice_subrange(bytes, start, start + length);
    *ix += length;
    utf8_entry(cesu8::from_java_cesu8(modified_utf8_data), start, start + length)
}

pub fn read_constant_integer<'a>(bytes: &'a [u8], ix: &mut usize) -> (read: Result<
    ConstantPoolEntry<Cow<'a, str>>,
    PoolError,
>)
    ensures
        entry_read_as(read, *final(ix), integer_at(bytes@, *old(ix) as int)),
{
    Ok(ConstantPoolEntry::Integer(to_signed32(read_u4(bytes, ix)?)))
}

pub fn read_constant_float<'a>(bytes: &'a [u8], ix: &mut usize) -> (read: Result<
    ConstantPoolEntry<Cow<'a, str>>,
    PoolError,
>)
    ensures
        entry_read_as(read, *final(ix), float_at(bytes@, *old(ix) as int)),
{
    Ok(ConstantPoolEntry::Float(read_u4(bytes, ix)?))
}

pub fn read_constant_long<'a>(bytes: &'a [u8], ix: &mut usize) -> (read: Result<
    ConstantPoolEntry<Cow<'a, str>>,
    PoolError,
>)
    ensures
        entry_read_as(read, *final(ix), long_at(bytes@, *old(ix) as int)),
{
    Ok(ConstantPoolEntry::Long(to_signed64(read_u8(bytes, ix)?)))
}

pub fn read_constant_double<'a>(bytes: &'a [u8], ix: &mut usize) -> (read: Result<
    ConstantPoolEntry<Cow<'a, str>>,
    PoolError,
>)
    ensures
        entry_read_as(read, *final(ix), double_at(bytes@, *old(ix) as int)),
{
    Ok(ConstantPoolEntry::Double(read_u8(bytes, ix)?))
}

pub fn read_constant_class<'a>(bytes: &'a [u8], ix: &mut usize) -> (read: Result<
    ConstantPoolEntry<Cow<'a, str>>,
    PoolError,
>)
    ensures
        entry_read_as(read, *final(ix), class_at(bytes@, *old(ix) as int)),
{
    let name_ref = read_unresolved_cp_ref(bytes, ix)?;
    Ok(ConstantPoolEntry::ClassInfo(name_ref))
}

pub fn read_constant_string<'a>(bytes: &'a [u8], ix: &mut usize) -> (read: Result<
    ConstantPoolEntry<Cow<'a, str>>,
    PoolError,
>)
    ensures
        entry_read_as(read, *final(ix), string_at(bytes@, *old(ix) as int)),
{
    let value_ref = read_unresolved_cp_ref(bytes, ix)?;
    Ok(ConstantPoolEntry::String(value_ref))
}

pub fn read_constant_fieldref<'a>(bytes: &'a [u8], ix: &mut usize) -> (read: Result<
    ConstantPoolEntry<Cow<'a, str>>,
    PoolError,
>)
    ensures
        entry_read_as(read, *final(ix), fieldref_at(bytes@, *old(ix) as int)),
{
    let class_ref = read_unresolved_cp_ref(bytes, ix)?;
    let name_and_type_ref = read_unresolved_cp_ref(bytes, ix)?;
    Ok(ConstantPoolEntry::FieldRef(class_ref, name_and_type_ref))
}

pub fn read_constant_methodref<'a>(bytes: &'a [u8], ix: &mut usize) -> (read: Result<
    ConstantPoolEntry<Cow<'a, str>>,
    PoolError,
>)
    ensures
        entry_read_as(read, *final(ix), methodref_at(bytes@, *old(ix) as int)),
{
    let class_ref = read_unresolved_cp_ref(bytes, ix)?;
    let name_and_type_ref = read_unresolved_cp_ref(bytes, ix)?;
    Ok(ConstantPoolEntry::MethodRef(class_ref, name_and_type_ref))
}

pub fn read_constant_interfacemethodref<'a>(bytes: &'a [u8], ix: &mut usize) -> (read: Result<
    ConstantPoolEntry<Cow<'a, str>>,
    PoolError,
>)
    ensures
        entry_read_as(read, *final(ix), interfacemethodref_at(bytes@, *old(ix) as int)),
{
    let class_ref = read_unresolved_cp_ref(bytes, ix)?;
    let name_and_type_ref = read_unresolved_cp_ref(bytes, ix)?;
    Ok(ConstantPoolEntry::InterfaceMethodRef(class_ref, name_and_type_ref))
}

pub fn read_constant_nameandtype<'a>(bytes: &'a [u8], ix: &mut usize) -> (read: Result<
    ConstantPoolEntry<Cow<'a, str>>,
    PoolError,
>)
    ensures
        entry_read_as(read, *final(ix), nameandtype_at(bytes@, *old(ix) as int)),
{
    let name_ref = read_unresolved_cp_ref(bytes, ix)?;
    let descriptor_ref = read_unresolved_cp_ref(bytes, ix)?;
    Ok(ConstantPoolEntry::NameAndType(name_ref, descriptor_ref))
}

/// Reads a method handle: the code of its access mode, which has to be one
/// of the nine, then the reference to its member.
pub fn read_constant_methodhandle<'a>(bytes: &'a [u8], ix: &mut usize) -> (read: Result<
    ConstantPoolEntry<Cow<'a, str>>,
    PoolError,
>)
    ensures
        entry_read_as(read, *final(ix), methodhandle_at(bytes@, *old(ix) as int)),
{
    let at: usize = *ix;
    let code: u8 = read_u1(bytes, ix)?;
    let reference_kind = match ReferenceKind::from_code(code) {
        Some(kind) => kind,
        None => return Err(PoolError::UnknownReferenceKind { code, offset: at }),
    };
    let reference_ref = read_unresolved_cp_ref(bytes, ix)?;
    Ok(ConstantPoolEntry::MethodHandle(reference_kind, reference_ref))
}

pub fn read_constant_methodtype<'a>(bytes: &'a [u8], ix: &mut usize) -> (read: Result<
    ConstantPoolEntry<Cow<'a, str>>,
    PoolError,
>)
    ensures
        entry_read_as(read, *final(ix), methodtype_at(bytes@, *old(ix) as int)),
{
    let descriptor_ref = read_unresolved_cp_ref(bytes, ix)?;
    Ok(ConstantPoolEntry::MethodType(descriptor_ref))
}

pub fn read_constant_invokedynamic<'a>(bytes: &'a [u8], ix: &mut usize) -> (read: Result<
    ConstantPoolEntry<Cow<'a, str>>,
    PoolError,
>)
    ensures
        entry_read_as(read, *final(ix), invokedynamic_at(bytes@, *old(ix) as int)),
{
    let bootstrap_method_ref = BootstrapMethodRef::Unresolved(read_u2(bytes, ix)?);
    let name_and_type_ref = read_unresolved_cp_ref(bytes, ix)?;
    Ok(ConstantPoolEntry::InvokeDynamic(bootstrap_method_ref, name_and_type_ref))
}

/// Reads one entry: its tag, then what the tag announces.
pub fn read_constant<'a>(bytes: &'a [u8], ix: &mut usize) -> (read: Result<
    ConstantPoolEntry<Cow<'a, str>>,
    PoolError,
>)
    ensures
        entry_read_as(read, *final(ix), entry_at(bytes@, *old(ix) as int)),
{
    let at: usize = *ix;
    let constant_type: u8 = read_u1(bytes, ix)?;
    match constant_type {
        1 => read_constant_utf8(bytes, ix),
        3 => read_constant_integer(bytes, ix),
        4 => read_constant_float(bytes, ix),
        5 => read_constant_long(bytes, ix),
        6 => read_constant_double(bytes, ix),
        7 => read_constant_class(bytes, ix),
        8 => read_constant_string(bytes, ix),
        9 => read_constant_fieldref(bytes, ix),
        10 => read_constant_methodref(bytes, ix),
        11 => read_constant_interfacemethodref(bytes, ix),
        12 => read_constant_nameandtype(bytes, ix),
        15 => read_constant_methodhandle(bytes, ix),
        16 => read_constant_methodtype(bytes, ix),
        18 => read_constant_invokedynamic(bytes, ix),
        n => Err(PoolError::UnknownTag { tag: n, offset: at }),
    }
}

/// Reads the entries of a pool of `constant_pool_count` slots. Every
/// reference is left raw.
pub fn decode_constant_pool<'a>(bytes: &'a [u8], ix: &mut usize, constant_pool_count: u16) -> (read:
    Result<Vec<ConstantPoolEntry<Cow<'a, str>>>, PoolError>)
    ensures
        pool_read_as(
            read,
            *final(ix),
            pool_at(bytes@, *old(ix) as int, constant_pool_count as int),
        ),
{
    let ghost start = *ix as int;
    let ghost count = constant_pool_count as int;
    let mut constant_pool: Vec<ConstantPoolEntry<Cow<'a, str>>> = Vec::new();
    constant_pool.push(ConstantPoolEntry::Zero);
    let mut cp_ix: usize = 1;
    assert(constant_pool.deep_view() =~= seq![ConstantPoolEntry::Zero]);
    while cp_ix < constant_pool_count as usize
        invariant
            start == *old(ix) as int,
            count == constant_pool_count as int,
            1 <= cp_ix <= count + 1,
            match entries_at(bytes@, *ix as int, cp_ix as int, count) {
                Ok((rest, end)) => pool_at(bytes@, start, count) == Ok::<
                    (Seq<EntryView>, int),
                    PoolError,
                >((constant_pool.deep_view() + rest, end)),
                Err(error) => pool_at(bytes@, start, count) == Err::<
                    (Seq<EntryView>, int),
                    PoolError,
                >(error),
            },
        decreases count + 1 - cp_ix,
    {
        let ghost so_far = constant_pool.deep_view();
        let entry = read_constant(bytes, ix)?;
        let wide = match &entry {
            ConstantPoolEntry::Long(_) => true,
            ConstantPoolEntry::Double(_) => true,
            _ => false,
        };
        let ghost parsed = entry.deep_view();
        constant_pool.push(entry);
        cp_ix += 1;
        if wide {
            // A number of eight bytes takes two slots of the pool.
            cp_ix += 1;
            constant_pool.push(ConstantPoolEntry::Unused);
        }
        proof {
            let now = constant_pool.deep_view();
            match entries_at(bytes@, *ix as int, cp_ix as int, count) {
                Ok((rest, end)) => {
                    if wide {
                        assert(now + rest =~= so_far + (seq![parsed, ConstantPoolEntry::Unused]
                            + rest));
                    } else {
                        assert(now + rest =~= so_far + (seq![parsed] + rest));
                    }
                },
                Err(_) => {},
            }
        }
    }
    Ok(constant_pool)
}

} // verus!
