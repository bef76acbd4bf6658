//! Checking the kinds: every linked reference has to point to an entry of
//! a kind that its place allows.

use crate::entry::ConstantPoolEntry;
use crate::error::PoolError;
use crate::kinds::{ConstantPoolEntryTypes, EntryKind, ReferenceKind};
use vstd::prelude::*;

verus! {

/// The first major version that lets the handle of a static or special
/// call point to a method of an interface.
pub const INTERFACE_HANDLES_SINCE: u16 = 52;

/// The kinds that the member of a method handle may have, by the access
/// mode of the handle and the major version of the class file.
pub open spec fn handle_targets(mode: ReferenceKind, major_version: u16) -> Set<EntryKind> {
    match mode {
        ReferenceKind::GetField | ReferenceKind::GetStatic | ReferenceKind::PutField
        | ReferenceKind::PutStatic => set![EntryKind::FieldRef],
        ReferenceKind::InvokeVirtual | ReferenceKind::NewInvokeSpecial => set![
            EntryKind::MethodRef,
        ],
        ReferenceKind::InvokeStatic | ReferenceKind::InvokeSpecial => if major_version
            < INTERFACE_HANDLES_SINCE {
            set![EntryKind::MethodRef]
        } else {
            set![EntryKind::MethodRef, EntryKind::InterfaceMethodRef]
        },
        ReferenceKind::InvokeInterface => set![EntryKind::InterfaceMethodRef],
    }
}

/// The kinds that reference number `slot` of `entry` may point to.
pub open spec fn allowed_kinds<T>(
    entry: ConstantPoolEntry<T>,
    slot: int,
    major_version: u16,
) -> Set<EntryKind> {
    match entry {
        ConstantPoolEntry::ClassInfo(_) => set![EntryKind::Utf8],
        ConstantPoolEntry::String(_) => set![EntryKind::Utf8],
        ConstantPoolEntry::FieldRef(_, _) | ConstantPoolEntry::MethodRef(_, _)
        | ConstantPoolEntry::InterfaceMethodRef(_, _) => if slot == 0 {
            set![EntryKind::ClassInfo]
        } else {
            set![EntryKind::NameAndType]
        },
        ConstantPoolEntry::NameAndType(_, _) => set![EntryKind::Utf8],
        ConstantPoolEntry::MethodHandle(mode, _) => handle_targets(mode, major_version),
        ConstantPoolEntry::MethodType(_) => set![EntryKind::Utf8],
        ConstantPoolEntry::InvokeDynamic(_, _) => set![EntryKind::NameAndType],
        _ => Set::<EntryKind>::empty(),
    }
}

/// Whether reference number `slot` of `entry` points to an entry of `pool`
/// of an allowed kind.
pub open spec fn slot_well_typed<T>(
    entry: ConstantPoolEntry<T>,
    slot: int,
    pool: Seq<ConstantPoolEntry<T>>,
    major_version: u16,
) -> bool {
    allowed_kinds(entry, slot, major_version).contains(pool[entry.refs()[slot].index()].kind())
}

/// Whether every reference of `entry` points to an entry of `pool` of an
/// allowed kind. An entry without references is well typed.
pub open spec fn well_typed<T>(
    entry: ConstantPoolEntry<T>,
    pool: Seq<ConstantPoolEntry<T>>,
    major_version: u16,
) -> bool {
    forall|slot: int|
        0 <= slot < entry.refs().len() ==> #[trigger] slot_well_typed(
            entry,
            slot,
            pool,
            major_version,
        )
}

/// The index of the first entry below `end` that is not well typed.
pub open spec fn first_ill_typed_below<T>(
    pool: Seq<ConstantPoolEntry<T>>,
    major_version: u16,
    end: nat,
) -> Option<int>
    decreases end,
{
    if end == 0 {
        None
    } else if first_ill_typed_below(pool, major_version, (end - 1) as nat) is Some {
        first_ill_typed_below(pool, major_version, (end - 1) as nat)
    } else if well_typed(pool[end - 1], pool, major_version) {
        None
    } else {
        Some(end - 1)
    }
}

/// How checking a pool ends: with the index of the first entry that is
/// not well typed, or well.
pub open spec fn validation_error<T>(pool: Seq<ConstantPoolEntry<T>>, major_version: u16) -> Option<
    PoolError,
> {
    match first_ill_typed_below(pool, major_version, pool.len()) {
        Some(index) => Some(PoolError::TypeMismatch { index: index as usize }),
        None => None,
    }
}

/// Whether every reference in the pool is linked and points into the pool.
pub open spec fn fully_linked<T>(pool: Seq<ConstantPoolEntry<T>>) -> bool {
    forall|index: int|
        0 <= index < pool.len() ==> (#[trigger] pool[index]).links_within(pool.len() as int)
}

/// What [`first_ill_typed_below`] finds is the least index of an entry
/// that is not well typed.
pub proof fn lemma_first_ill_typed<T>(pool: Seq<ConstantPoolEntry<T>>, major_version: u16, end: nat)
    ensures
        match first_ill_typed_below(pool, major_version, end) {
            Some(index) => {
                &&& 0 <= index < end
                &&& !well_typed(pool[index], pool, major_version)
                &&& forall|earlier: int|
                    0 <= earlier < index ==> well_typed(#[trigger] pool[earlier], pool, major_version)
            },
            None => forall|index: int|
                0 <= index < end ==> well_typed(#[trigger] pool[index], pool, major_version),
        },
    decreases end,
{
    if end > 0 {
        lemma_first_ill_typed(pool, major_version, (end - 1) as nat);
    }
}

proof fn lemma_first_ill_typed_sticks<T>(
    pool: Seq<ConstantPoolEntry<T>>,
    major_version: u16,
    found: nat,
    end: nat,
)
    requires
        found <= end,
        first_ill_typed_below(pool, major_version, found) is Some,
    ensures
        first_ill_typed_below(pool, major_version, end) == first_ill_typed_below(
            pool,
            major_version,
            found,
        ),
    decreases end,
{
    if found < end {
        lemma_first_ill_typed_sticks(pool, major_version, found, (end - 1) as nat);
    }
}

/// The kinds that the member of a method handle may have.
pub fn handle_target_types(mode: ReferenceKind, major_version: u16) -> (allowed:
    ConstantPoolEntryTypes)
    ensures
        allowed@ == handle_targets(mode, major_version),
{
    match mode {
        ReferenceKind::GetField | ReferenceKind::GetStatic | ReferenceKind::PutField
        | ReferenceKind::PutStatic => ConstantPoolEntryTypes::of(EntryKind::FieldRef),
        ReferenceKind::InvokeVirtual | ReferenceKind::NewInvokeSpecial => ConstantPoolEntryTypes::of(
            EntryKind::MethodRef,
        ),
        ReferenceKind::InvokeStatic | ReferenceKind::InvokeSpecial => if major_version
            < INTERFACE_HANDLES_SINCE {
            ConstantPoolEntryTypes::of(EntryKind::MethodRef)
        } else {
            ConstantPoolEntryTypes::new_method_refs()
        },
        ReferenceKind::InvokeInterface => ConstantPoolEntryTypes::of(
            EntryKind::InterfaceMethodRef,
        ),
    }
}

impl<T> ConstantPoolEntry<T> {
    /// Checks the kind of the entry behind each reference of this entry.
    pub fn validate(&self, pool: &[ConstantPoolEntry<T>], major_version: u16) -> (checked: Result<
        bool,
        PoolError,
    >)
        requires
            self.links_within(pool@.len() as int),
        ensures
            well_typed(*self, pool@, major_version) ==> checked == Ok::<bool, PoolError>(true),
            !well_typed(*self, pool@, major_version) ==> checked == Err::<bool, PoolError>(
                PoolError::UnexpectedType,
            ),
    {
        let utf8 = ConstantPoolEntryTypes::of(EntryKind::Utf8);
        let class_info = ConstantPoolEntryTypes::of(EntryKind::ClassInfo);
        let name_and_type = ConstantPoolEntryTypes::of(EntryKind::NameAndType);
        match self {
            ConstantPoolEntry::ClassInfo(x) => {
                assert(slot_well_typed(*self, 0, pool@, major_version) == utf8@.contains(
                    pool@[x.index()].kind(),
                ));
                x.ensure_type(pool, utf8)
            },
            ConstantPoolEntry::String(x) => {
                assert(slot_well_typed(*self, 0, pool@, major_version) == utf8@.contains(
                    pool@[x.index()].kind(),
                ));
                x.ensure_type(pool, utf8)
            },
            ConstantPoolEntry::FieldRef(x, y) => {
                assert(slot_well_typed(*self, 0, pool@, major_version) == class_info@.contains(
                    pool@[x.index()].kind(),
                ));
                assert(slot_well_typed(*self, 1, pool@, major_version) == name_and_type@.contains(
                    pool@[y.index()].kind(),
                ));
                Ok(x.ensure_type(pool, class_info)? && y.ensure_type(pool, name_and_type)?)
            },
            ConstantPoolEntry::MethodRef(x, y) => {
                assert(slot_well_typed(*self, 0, pool@, major_version) == class_info@.contains(
                    pool@[x.index()].kind(),
                ));
                assert(slot_well_typed(*self, 1, pool@, major_version) == name_and_type@.contains(
                    pool@[y.index()].kind(),
                ));
                Ok(x.ensure_type(pool, class_info)? && y.ensure_type(pool, name_and_type)?)
            },
            ConstantPoolEntry::InterfaceMethodRef(x, y) => {
                assert(slot_well_typed(*self, 0, pool@, major_version) == class_info@.contains(
                    pool@[x.index()].kind(),
                ));
                assert(slot_well_typed(*self, 1, pool@, major_version) == name_and_type@.contains(
                    pool@[y.index()].kind(),
                ));
                Ok(x.ensure_type(pool, class_info)? && y.ensure_type(pool, name_and_type)?)
            },
            ConstantPoolEntry::NameAndType(x, y) => {
                assert(slot_well_typed(*self, 0, pool@, major_version) == utf8@.contains(
                    pool@[x.index()].kind(),
                ));
                assert(slot_well_typed(*self, 1, pool@, major_version) == utf8@.contains(
                    pool@[y.index()].kind(),
                ));
                Ok(x.ensure_type(pool, utf8)? && y.ensure_type(pool, utf8)?)
            },
            ConstantPoolEntry::MethodHandle(x, y) => {
                let member = handle_target_types(*x, major_version);
                assert(slot_well_typed(*self, 0, pool@, major_version) == member@.contains(
                    pool@[y.index()].kind(),
                ));
                y.ensure_type(pool, member)
            },
            ConstantPoolEntry::MethodType(x) => {
                assert(slot_well_typed(*self, 0, pool@, major_version) == utf8@.contains(
                    pool@[x.index()].kind(),
                ));
                x.ensure_type(pool, utf8)
            },
            ConstantPoolEntry::InvokeDynamic(_, y) => {
                assert(slot_well_typed(*self, 0, pool@, major_version) == name_and_type@.contains(
                    pool@[y.index()].kind(),
                ));
                y.ensure_type(pool, name_and_type)
            },
            _ => Ok(true),
        }
    }
}

/// Whether every reference in the pool is linked and points into the pool.
pub fn is_fully_linked<T>(constant_pool: &[ConstantPoolEntry<T>]) -> (linked: bool)
    ensures
        linked == fully_linked(constant_pool@),
{
    let mut i: usize = 0;
    while i < constant_pool.len()
        invariant
            i <= constant_pool@.len(),
            forall|index: int|
                0 <= index < i ==> (#[trigger] constant_pool@[index]).links_within(
                    constant_pool@.len() as int,
                ),
        decreases constant_pool@.len() - i,
    {
        if !constant_pool[i].is_linked_within(constant_pool.len()) {
            return false;
        }
        i += 1;
    }
    true
}

/// Checks every entry of a fully linked pool, in the order of the entries,
/// and reports the first that is not well typed, by its index.
pub fn validate_constant_pool<T>(constant_pool: &[ConstantPoolEntry<T>], major_version: u16) -> (outcome:
    Result<(), PoolError>)
    requires
        fully_linked(constant_pool@),
    ensures
        match outcome {
            Ok(()) => validation_error(constant_pool@, major_version) is None,
            Err(error) => validation_error(constant_pool@, major_version) == Some(error),
        },
        outcome is Ok <==> forall|index: int|
            0 <= index < constant_pool@.len() ==> well_typed(
                #[trigger] constant_pool@[index],
                constant_pool@,
                major_version,
            ),
{
    let mut i: usize = 0;
    while i < constant_pool.len()
        invariant
            i <= constant_pool@.len(),
            fully_linked(constant_pool@),
            first_ill_typed_below(constant_pool@, major_version, i as nat) is None,
        decreases constant_pool@.len() - i,
    {
        match constant_pool[i].validate(constant_pool, major_version) {
            Ok(_) => {},
            Err(_) => {
                proof {
                    lemma_first_ill_typed_sticks(
                        constant_pool@,
                        major_version,
                        (i + 1) as nat,
                        constant_pool@.len(),
                    );
                }
                return Err(PoolError::TypeMismatch { index: i });
            },
        }
        i += 1;
    }
    proof {
        lemma_first_ill_typed(constant_pool@, major_version, constant_pool@.len());
    }
    Ok(())
}

} // verus!
