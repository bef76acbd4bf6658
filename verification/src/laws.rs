//! What holds of linking and checking on every pool.

use crate::entry::{ConstantPoolEntry, ConstantPoolRef};
use crate::error::PoolError;
use crate::kinds::{EntryKind, ReferenceKind};
use crate::resolve::{
    entry_fault, first_fault, first_fault_below, lemma_faultless, lemma_settled_deeper,
    resolution_error, resolvable, resolved_form, settled_within, settles,
};
use crate::validate::{slot_well_typed, well_typed, INTERFACE_HANDLES_SINCE};
use vstd::prelude::*;

verus! {

/// Whether reference number `slot` of the entry at `index` is raw and
/// points to the entry at `target`.
pub open spec fn raw_ref<T>(
    pool: Seq<ConstantPoolEntry<T>>,
    index: int,
    slot: int,
    target: int,
) -> bool {
    &&& 0 <= index < pool.len()
    &&& 0 <= slot < pool[index].refs().len()
    &&& pool[index].refs()[slot] is Unresolved
    &&& pool[index].refs()[slot].index() == target
}

/// Whether reference `(index, slot)` comes before `(other, other_slot)` in
/// the order in which a scan tries the references.
pub open spec fn scanned_before(index: int, slot: int, other: int, other_slot: int) -> bool {
    index < other || (index == other && slot < other_slot)
}

proof fn lemma_ranked_entry_settles<T>(
    pool: Seq<ConstantPoolEntry<T>>,
    rank: spec_fn(int) -> nat,
    index: int,
)
    requires
        0 <= index < pool.len(),
        forall|from: int, slot: int|
            0 <= from < pool.len() && 0 <= slot < pool[from].refs().len()
                && #[trigger] pool[from].refs()[slot] is Unresolved ==> {
                &&& pool[from].refs()[slot].index() < pool.len()
                &&& rank(pool[from].refs()[slot].index()) < rank(from)
            },
    ensures
        settled_within(pool, index, rank(index)),
    decreases rank(index),
{
    assert forall|slot: int|
        0 <= slot < pool[index].refs().len() && #[trigger] pool[index].refs()[slot] is Unresolved
        implies rank(index) > 0 && settled_within(
        pool,
        pool[index].refs()[slot].index(),
        (rank(index) - 1) as nat,
    ) by {
        let target = pool[index].refs()[slot].index();
        lemma_ranked_entry_settles(pool, rank, target);
        lemma_settled_deeper(pool, target, rank(target), (rank(index) - 1) as nat);
    }
}

/// Linking succeeds on every pool whose raw references form no cycle.
///
/// The references form no cycle where the entries can be ranked so that
/// each raw reference points into the pool, to an entry of a lower rank
/// than the entry it leaves. Linking then ends well, and leaves every
/// reference of the pool linked.
pub proof fn lemma_acyclic_pool_resolves<T>(
    pool: Seq<ConstantPoolEntry<T>>,
    rank: spec_fn(int) -> nat,
)
    requires
        forall|from: int, slot: int|
            0 <= from < pool.len() && 0 <= slot < pool[from].refs().len()
                && #[trigger] pool[from].refs()[slot] is Unresolved ==> {
                &&& pool[from].refs()[slot].index() < pool.len()
                &&& rank(pool[from].refs()[slot].index()) < rank(from)
            },
    ensures
        resolution_error(pool) is None,
        forall|index: int|
            0 <= index < pool.len() ==> (#[trigger] resolved_form(pool)[index]).is_resolved(),
{
    lemma_faultless(pool);
    assert forall|index: int| 0 <= index < pool.len() implies settles(pool, index) by {
        lemma_ranked_entry_settles(pool, rank, index);
    }
}

/// In the pool with every reference linked, every entry is fully linked.
pub proof fn lemma_resolved_form_is_linked<T>(pool: Seq<ConstantPoolEntry<T>>)
    ensures
        forall|index: int|
            0 <= index < pool.len() ==> (#[trigger] resolved_form(pool)[index]).is_resolved(),
{
}

/// A fault is never taken for a cycle: where some entry has a raw
/// reference to itself or past the end of the pool, linking ends with the
/// fault that a scan meets first, and never as unresolvable.
pub proof fn lemma_fault_is_reported<T>(pool: Seq<ConstantPoolEntry<T>>, index: int)
    requires
        0 <= index < pool.len(),
        entry_fault(pool, index) is Some,
    ensures
        resolution_error(pool) is Some,
        resolution_error(pool) == first_fault(pool),
        resolution_error(pool) != Some(PoolError::Unresolvable),
{
    lemma_fault_kinds(pool, pool.len());
}

/// The fault that a scan meets first is a reference of an entry to
/// itself or past the end of the pool, and it is that of the first entry
/// that has a fault.
pub proof fn lemma_fault_kinds<T>(pool: Seq<ConstantPoolEntry<T>>, end: nat)
    requires
        end <= pool.len(),
    ensures
        match first_fault_below(pool, end) {
            Some(fault) => exists|index: int|
                {
                    &&& 0 <= index < end
                    &&& #[trigger] entry_fault(pool, index) == Some(fault)
                    &&& forall|earlier: int|
                        0 <= earlier < index ==> #[trigger] entry_fault(pool, earlier) is None
                    &&& fault is SelfReference || fault is OutOfBoundsReference
                },
            None => forall|index: int|
                0 <= index < end ==> #[trigger] entry_fault(pool, index) is None,
        },
    decreases end,
{
    if end > 0 {
        lemma_fault_kinds(pool, (end - 1) as nat);
    }
}

/// A raw reference of an entry to itself is reported as such, where no
/// raw reference that a scan tries before it points past the end of the
/// pool. The entry reported is the first that refers to itself.
pub proof fn lemma_self_reference_is_reported<T>(
    pool: Seq<ConstantPoolEntry<T>>,
    index: int,
    slot: int,
)
    requires
        raw_ref(pool, index, slot, index),
        forall|other: int, other_slot: int|
            0 <= other < pool.len() && 0 <= other_slot < pool[other].refs().len()
                && #[trigger] pool[other].refs()[other_slot] is Unresolved && scanned_before(
                other,
                other_slot,
                index,
                slot,
            ) ==> pool[other].refs()[other_slot].index() < pool.len(),
    ensures
        resolution_error(pool) is Some,
        resolution_error(pool)->Some_0 is SelfReference,
        resolution_error(pool)->Some_0->SelfReference_index <= index,
{
    assert(pool[index].refs().len() <= 2);
    lemma_fault_is_reported(pool, index);
    lemma_fault_kinds(pool, pool.len());
}

/// A raw reference past the end of the pool is reported as such, where no
/// raw reference that a scan tries before it points to its own entry. It
/// is reported by the first scan, before any reference is followed.
pub proof fn lemma_out_of_bounds_is_reported<T>(
    pool: Seq<ConstantPoolEntry<T>>,
    index: int,
    slot: int,
    target: int,
)
    requires
        raw_ref(pool, index, slot, target),
        target >= pool.len(),
        forall|other: int, other_slot: int|
            0 <= other < pool.len() && 0 <= other_slot < pool[other].refs().len()
                && #[trigger] pool[other].refs()[other_slot] is Unresolved && scanned_before(
                other,
                other_slot,
                index,
                slot,
            ) ==> pool[other].refs()[other_slot].index() != other,
    ensures
        resolution_error(pool) is Some,
        resolution_error(pool)->Some_0 is OutOfBoundsReference,
        resolution_error(pool)->Some_0->OutOfBoundsReference_index <= index,
{
    assert(pool[index].refs().len() <= 2);
    lemma_fault_is_reported(pool, index);
    lemma_fault_kinds(pool, pool.len());
}

proof fn lemma_cycle_never_settles<T>(
    pool: Seq<ConstantPoolEntry<T>>,
    a: int,
    a_slot: int,
    b: int,
    b_slot: int,
    depth: nat,
)
    requires
        raw_ref(pool, a, a_slot, b),
        raw_ref(pool, b, b_slot, a),
    ensures
        !settled_within(pool, a, depth),
        !settled_within(pool, b, depth),
    decreases depth,
{
    if depth > 0 {
        lemma_cycle_never_settles(pool, a, a_slot, b, b_slot, (depth - 1) as nat);
    }
}

/// Two entries with raw references to each other can never be linked:
/// where the pool has no fault, linking ends as unresolvable.
pub proof fn lemma_mutual_references_are_unresolvable<T>(
    pool: Seq<ConstantPoolEntry<T>>,
    a: int,
    a_slot: int,
    b: int,
    b_slot: int,
)
    requires
        raw_ref(pool, a, a_slot, b),
        raw_ref(pool, b, b_slot, a),
    ensures
        !resolvable(pool),
        resolution_error(pool) is Some,
        first_fault(pool) is None ==> resolution_error(pool) == Some(PoolError::Unresolvable),
{
    if settles(pool, a) {
        let depth = choose|depth: nat| settled_within(pool, a, depth);
        lemma_cycle_never_settles(pool, a, a_slot, b, b_slot, depth);
    }
}

/// Checking never fails on an entry without references, whatever the
/// pool holds: a number or a text is well typed.
pub proof fn lemma_leaf_is_well_typed<T>(
    entry: ConstantPoolEntry<T>,
    pool: Seq<ConstantPoolEntry<T>>,
    major_version: u16,
)
    requires
        entry.refs().len() == 0,
    ensures
        well_typed(entry, pool, major_version),
{
}

/// A class is well typed exactly where its name is text.
pub proof fn lemma_class_name_is_text<T>(
    name: ConstantPoolRef,
    pool: Seq<ConstantPoolEntry<T>>,
    major_version: u16,
)
    ensures
        well_typed(ConstantPoolEntry::<T>::ClassInfo(name), pool, major_version) <==> pool[name.index()].kind()
            == EntryKind::Utf8,
{
    let entry = ConstantPoolEntry::<T>::ClassInfo(name);
    assert(slot_well_typed(entry, 0, pool, major_version) <==> pool[name.index()].kind()
        == EntryKind::Utf8);
}

/// The handle of a static call whose member is a method of an interface
/// is well typed from major version 52 on, and not before. The same holds
/// of the handle of a special call.
pub proof fn lemma_interface_handles_since_52<T>(
    mode: ReferenceKind,
    member: ConstantPoolRef,
    pool: Seq<ConstantPoolEntry<T>>,
    major_version: u16,
)
    requires
        mode == ReferenceKind::InvokeStatic || mode == ReferenceKind::InvokeSpecial,
        pool[member.index()].kind() == EntryKind::InterfaceMethodRef,
    ensures
        well_typed(ConstantPoolEntry::<T>::MethodHandle(mode, member), pool, major_version)
            <==> major_version >= 52,
{
    let entry = ConstantPoolEntry::<T>::MethodHandle(mode, member);
    assert(slot_well_typed(entry, 0, pool, major_version) <==> major_version
        >= INTERFACE_HANDLES_SINCE);
}

} // verus!
