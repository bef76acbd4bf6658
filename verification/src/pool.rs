//! The whole way from the bytes of a class file to a pool that is linked
//! and checked, and reading a reference into such a pool.

use crate::alike::{lemma_alike_resolution, lemma_alike_validation, lemma_views_of_resolved_form};
use crate::cursor::{read_u2, u2_at, Parsed};
use crate::decode::{
    all_raw, decode_constant_pool, lemma_pool_decoded, pool_at, pool_read_as,
    wide_in_two_slots, EntryView,
};
use crate::entry::ConstantPoolEntry;
use crate::error::PoolError;
use crate::kinds::{ConstantPoolEntryTypes, EntryKind};
use crate::resolve::{
    entry_fault, first_fault, lemma_faultless, resolution_error, resolve_constant_pool,
    resolved_form,
};
use crate::validate::{
    fully_linked, lemma_first_ill_typed, validate_constant_pool, validation_error, well_typed,
};
use std::borrow::Cow;
use vstd::prelude::*;

verus! {

/// The pool of `count` slots whose entries start at `at`, decoded, linked
/// and checked under `major_version`; or the first failure on that way.
pub open spec fn constant_pool_at(bytes: Seq<u8>, at: int, count: int, major_version: u16) -> Parsed<
    Seq<EntryView>,
> {
    match pool_at(bytes, at, count) {
        Ok((raw, end)) => if resolution_error(raw) is Some {
            Err(resolution_error(raw)->Some_0)
        } else if validation_error(resolved_form(raw), major_version) is Some {
            Err(validation_error(resolved_form(raw), major_version)->Some_0)
        } else {
            Ok((resolved_form(raw), end))
        },
        Err(error) => Err(error),
    }
}

/// A pool without faults whose references are all raw is fully linked
/// once every reference is linked, and none of its entries refers to
/// itself.
pub proof fn lemma_linked_after_resolution<T>(pool: Seq<ConstantPoolEntry<T>>)
    requires
        all_raw(pool),
        first_fault(pool) is None,
    ensures
        fully_linked(resolved_form(pool)),
        forall|index: int, slot: int|
            0 <= index < pool.len() && 0 <= slot < resolved_form(pool)[index].refs().len()
                ==> #[trigger] resolved_form(pool)[index].refs()[slot].index() != index,
{
    lemma_faultless(pool);
    let linked = resolved_form(pool);
    assert forall|index: int| 0 <= index < linked.len() implies (#[trigger] linked[index]).links_within(
        linked.len() as int,
    ) by {
        assert(entry_fault(pool, index) is None);
    }
    assert forall|index: int, slot: int|
        0 <= index < pool.len() && 0 <= slot < linked[index].refs().len()
        implies #[trigger] linked[index].refs()[slot].index() != index by {
        assert(entry_fault(pool, index) is None);
    }
}

/// What holds of every pool that was read: it starts with the reserved
/// entry; every reference is linked, points into the pool and not to its
/// own entry; every entry is well typed; and each number of eight bytes
/// is followed by an unused entry.
pub proof fn lemma_pool_read(bytes: Seq<u8>, at: int, count: int, major_version: u16)
    ensures
        match constant_pool_at(bytes, at, count, major_version) {
            Ok((pool, end)) => {
                &&& pool[0] is Zero
                &&& fully_linked(pool)
                &&& forall|index: int, slot: int|
                    0 <= index < pool.len() && 0 <= slot < pool[index].refs().len()
                        ==> #[trigger] pool[index].refs()[slot].index() != index
                &&& forall|index: int|
                    0 <= index < pool.len() ==> well_typed(
                        #[trigger] pool[index],
                        pool,
                        major_version,
                    )
                &&& wide_in_two_slots(pool)
            },
            Err(_) => true,
        },
{
    lemma_pool_decoded(bytes, at, count);
    match pool_at(bytes, at, count) {
        Ok((raw, end)) => {
            if resolution_error(raw) is None {
                let pool = resolved_form(raw);
                lemma_linked_after_resolution(raw);
                lemma_first_ill_typed(pool, major_version, pool.len());
            }
        },
        Err(_) => {},
    }
}

/// Reads the pool of a class file: decodes its entries, links every
/// reference and checks the kind of entry that each reference points to.
///
/// `constant_pool_count` is the number of slots, the reserved entry at
/// index 0 counted in. `major_version` is that of the class file. The
/// first failure ends the reading, and the cursor is then not to be used.
pub fn read_constant_pool<'a>(
    bytes: &'a [u8],
    ix: &mut usize,
    constant_pool_count: u16,
    major_version: u16,
) -> (read: Result<Vec<ConstantPoolEntry<Cow<'a, str>>>, PoolError>)
    ensures
        pool_read_as(
            read,
            *final(ix),
            constant_pool_at(
                bytes@,
                *old(ix) as int,
                constant_pool_count as int,
                major_version,
            ),
        ),
{
    let ghost start = *ix as int;
    let mut constant_pool = decode_constant_pool(bytes, ix, constant_pool_count)?;
    let ghost decoded = constant_pool@;
    let ghost raw = constant_pool.deep_view();
    proof {
        lemma_alike_resolution(decoded, raw);
        lemma_pool_decoded(bytes@, start, constant_pool_count as int);
        assert forall|index: int, slot: int|
            0 <= index < decoded.len() && 0 <= slot < decoded[index].refs().len()
            implies #[trigger] decoded[index].refs()[slot] is Unresolved by {
            assert(raw[index].refs()[slot] is Unresolved);
        }
    }
    resolve_constant_pool(&mut constant_pool)?;
    proof {
        lemma_views_of_resolved_form(decoded);
        lemma_linked_after_resolution(decoded);
        lemma_alike_validation(constant_pool@, constant_pool.deep_view(), major_version);
    }
    validate_constant_pool(constant_pool.as_slice(), major_version)?;
    Ok(constant_pool)
}

/// What reading a reference into `pool` at `at` gives, where the entry
/// referred to has to be of one of the kinds in `allowed`: the index of
/// that entry.
pub open spec fn cp_ref_at<T>(
    bytes: Seq<u8>,
    at: int,
    pool: Seq<ConstantPoolEntry<T>>,
    allowed: Set<EntryKind>,
) -> Parsed<int> {
    match u2_at(bytes, at) {
        Ok((index, next)) => if index >= pool.len() {
            Err(PoolError::IndexOutOfBounds { index: index as usize })
        } else if !allowed.contains(pool[index as int].kind()) {
            Err(PoolError::UnexpectedType)
        } else {
            Ok((index as int, next))
        },
        Err(error) => Err(error),
    }
}

/// Reads an index of two bytes and returns the entry of `pool` at that
/// index, where it is of one of the kinds in `allowed`.
///
/// The entry is not looked into: the reserved entry at index 0 is
/// returned like any other where `allowed` holds its kind.
pub fn read_cp_ref<'p, T>(
    bytes: &[u8],
    ix: &mut usize,
    pool: &'p [ConstantPoolEntry<T>],
    allowed: ConstantPoolEntryTypes,
) -> (read: Result<&'p ConstantPoolEntry<T>, PoolError>)
    ensures
        match cp_ref_at(bytes@, *old(ix) as int, pool@, allowed@) {
            Ok((index, next)) => read is Ok && *read->Ok_0 == pool@[index] && *final(ix) == next,
            Err(error) => read is Err && read->Err_0 == error,
        },
{
    let cp_index: usize = read_u2(bytes, ix)? as usize;
    if cp_index >= pool.len() {
        return Err(PoolError::IndexOutOfBounds { index: cp_index });
    }
    pool[cp_index].ensure_type(allowed)?;
    Ok(&pool[cp_index])
}

} // verus!
