//! The closed sets of names used throughout the pool: the access modes of a
//! method handle, the kinds of entry, and sets of entry kinds.

use vstd::prelude::*;

verus! {

/// The access mode recorded in a method handle. It decides which kind of
/// entry the handle's member reference has to point to.
#[derive(Debug, Clone, Copy, PartialEq, Eq, Structural)]
pub enum ReferenceKind {
    GetField,
    GetStatic,
    PutField,
    PutStatic,
    InvokeVirtual,
    InvokeStatic,
    InvokeSpecial,
    NewInvokeSpecial,
    InvokeInterface,
}

impl ReferenceKind {
    /// The access mode that a code names, when it names one.
    pub open spec fn of_code(code: u8) -> Option<ReferenceKind> {
        if code == 1 {
            Some(ReferenceKind::GetField)
        } else if code == 2 {
            Some(ReferenceKind::GetStatic)
        } else if code == 3 {
            Some(ReferenceKind::PutField)
        } else if code == 4 {
            Some(ReferenceKind::PutStatic)
        } else if code == 5 {
            Some(ReferenceKind::InvokeVirtual)
        } else if code == 6 {
            Some(ReferenceKind::InvokeStatic)
        } else if code == 7 {
            Some(ReferenceKind::InvokeSpecial)
        } else if code == 8 {
            Some(ReferenceKind::NewInvokeSpecial)
        } else if code == 9 {
            Some(ReferenceKind::InvokeInterface)
        } else {
            None
        }
    }

    /// Reads an access mode from its one-byte code, 1 to 9.
    pub fn from_code(code: u8) -> (kind: Option<ReferenceKind>)
        ensures
            kind == Self::of_code(code),
    {
        match code {
            1 => Some(ReferenceKind::GetField),
            2 => Some(ReferenceKind::GetStatic),
            3 => Some(ReferenceKind::PutField),
            4 => Some(ReferenceKind::PutStatic),
            5 => Some(ReferenceKind::InvokeVirtual),
            6 => Some(ReferenceKind::InvokeStatic),
            7 => Some(ReferenceKind::InvokeSpecial),
            8 => Some(ReferenceKind::NewInvokeSpecial),
            9 => Some(ReferenceKind::InvokeInterface),
            _ => None,
        }
    }
}

/// The kind of a pool entry, one for each variant of an entry.
#[derive(Debug, Clone, Copy, PartialEq, Eq, Structural)]
pub enum EntryKind {
    Zero,
    Utf8,
    Integer,
    Float,
    Long,
    Double,
    ClassInfo,
    String,
    FieldRef,
    MethodRef,
    InterfaceMethodRef,
    NameAndType,
    MethodHandle,
    MethodType,
    InvokeDynamic,
    Unused,
}

impl EntryKind {
    /// The single bit that stands for this kind in a set of kinds.
    pub open spec fn bit(self) -> u16 {
        match self {
            EntryKind::Zero => 0x0001,
            EntryKind::Utf8 => 0x0002,
            EntryKind::Integer => 0x0004,
            EntryKind::Float => 0x0008,
            EntryKind::Long => 0x0010,
            EntryKind::Double => 0x0020,
            EntryKind::ClassInfo => 0x0040,
            EntryKind::String => 0x0080,
            EntryKind::FieldRef => 0x0100,
            EntryKind::MethodRef => 0x0200,
            EntryKind::InterfaceMethodRef => 0x0400,
            EntryKind::NameAndType => 0x0800,
            EntryKind::MethodHandle => 0x1000,
            EntryKind::MethodType => 0x2000,
            EntryKind::InvokeDynamic => 0x4000,
            EntryKind::Unused => 0x8000,
        }
    }

    /// Computes [`EntryKind::bit`].
    pub fn mask(self) -> (bits: u16)
        ensures
            bits == self.bit(),
    {
        match self {
            EntryKind::Zero => 0x0001,
            EntryKind::Utf8 => 0x0002,
            EntryKind::Integer => 0x0004,
            EntryKind::Float => 0x0008,
            EntryKind::Long => 0x0010,
            EntryKind::Double => 0x0020,
            EntryKind::ClassInfo => 0x0040,
            EntryKind::String => 0x0080,
            EntryKind::FieldRef => 0x0100,
            EntryKind::MethodRef => 0x0200,
            EntryKind::InterfaceMethodRef => 0x0400,
            EntryKind::NameAndType => 0x0800,
            EntryKind::MethodHandle => 0x1000,
            EntryKind::MethodType => 0x2000,
            EntryKind::InvokeDynamic => 0x4000,
            EntryKind::Unused => 0x8000,
        }
    }
}

/// A set of entry kinds, held as one bit per kind.
///
/// Its view is the set of kinds whose bit is on.
#[derive(Debug, Clone, Copy, PartialEq, Eq, Structural)]
pub struct ConstantPoolEntryTypes {
    pub bits: u16,
}

impl View for ConstantPoolEntryTypes {
    type V = Set<EntryKind>;

    open spec fn view(&self) -> Set<EntryKind> {
        Set::new(|kind: EntryKind| self.bits & kind.bit() != 0)
    }
}

/// Holds of the sixteen values that stand for one kind each.
pub open spec fn is_kind_bit(b: u16) -> bool {
    b == 0x0001 || b == 0x0002 || b == 0x0004 || b == 0x0008 || b == 0x0010 || b == 0x0020 || b
        == 0x0040 || b == 0x0080 || b == 0x0100 || b == 0x0200 || b == 0x0400 || b == 0x0800 || b
        == 0x1000 || b == 0x2000 || b == 0x4000 || b == 0x8000
}

proof fn lemma_kind_bits_meet(a: u16, b: u16)
    by (bit_vector)
    requires
        is_kind_bit(a),
        is_kind_bit(b),
    ensures
        (a & b != 0) <==> a == b,
        (0u16 & b) == 0,
{
}

proof fn lemma_union_bit(s: u16, t: u16, b: u16)
    by (bit_vector)
    ensures
        ((s | t) & b != 0) <==> (s & b != 0 || t & b != 0),
{
}

proof fn lemma_covered_bit(s: u16, o: u16, b: u16)
    by (bit_vector)
    requires
        s & o == o,
        o & b != 0,
    ensures
        s & b != 0,
{
}

proof fn lemma_covered_all(s: u16, o: u16)
    by (bit_vector)
    requires
        o & 0x0001 != 0 ==> s & 0x0001 != 0,
        o & 0x0002 != 0 ==> s & 0x0002 != 0,
        o & 0x0004 != 0 ==> s & 0x0004 != 0,
        o & 0x0008 != 0 ==> s & 0x0008 != 0,
        o & 0x0010 != 0 ==> s & 0x0010 != 0,
        o & 0x0020 != 0 ==> s & 0x0020 != 0,
        o & 0x0040 != 0 ==> s & 0x0040 != 0,
        o & 0x0080 != 0 ==> s & 0x0080 != 0,
        o & 0x0100 != 0 ==> s & 0x0100 != 0,
        o & 0x0200 != 0 ==> s & 0x0200 != 0,
        o & 0x0400 != 0 ==> s & 0x0400 != 0,
        o & 0x0800 != 0 ==> s & 0x0800 != 0,
        o & 0x1000 != 0 ==> s & 0x1000 != 0,
        o & 0x2000 != 0 ==> s & 0x2000 != 0,
        o & 0x4000 != 0 ==> s & 0x4000 != 0,
        o & 0x8000 != 0 ==> s & 0x8000 != 0,
    ensures
        s & o == o,
{
}

impl ConstantPoolEntryTypes {
    /// The set without any kind.
    pub fn empty() -> (set: Self)
        ensures
            set@ == Set::<EntryKind>::empty(),
    {
        let set = ConstantPoolEntryTypes { bits: 0 };
        proof {
            assert forall|kind: EntryKind| !(#[trigger] set@.contains(kind)) by {
                lemma_kind_bits_meet(kind.bit(), kind.bit());
            }
        }
        set
    }

    /// The set of one kind.
    pub fn of(kind: EntryKind) -> (set: Self)
        ensures
            set@ == set![kind],
            set.bits == kind.bit(),
    {
        let set = ConstantPoolEntryTypes { bits: kind.mask() };
        proof {
            assert forall|other: EntryKind| #[trigger] set@.contains(other) <==> other == kind by {
                lemma_kind_bits_meet(kind.bit(), other.bit());
            }
        }
        set
    }

    /// The kinds of either set.
    pub fn union(self, other: Self) -> (set: Self)
        ensures
            set@ == self@.union(other@),
            set.bits == self.bits | other.bits,
    {
        let set = ConstantPoolEntryTypes { bits: self.bits | other.bits };
        proof {
            assert forall|kind: EntryKind| #[trigger]
                set@.contains(kind) <==> self@.contains(kind) || other@.contains(kind) by {
                lemma_union_bit(self.bits, other.bits, kind.bit());
            }
        }
        set
    }

    /// Whether `kind` is in the set.
    pub fn has(self, kind: EntryKind) -> (found: bool)
        ensures
            found == self@.contains(kind),
    {
        self.bits & kind.mask() != 0
    }

    /// Whether every kind of `other` is in the set.
    pub fn contains(self, other: Self) -> (all: bool)
        ensures
            all == other@.subset_of(self@),
    {
        let all = self.bits & other.bits == other.bits;
        proof {
            if all {
                assert forall|kind: EntryKind| other@.contains(kind) implies self@.contains(
                    kind,
                ) by {
                    lemma_covered_bit(self.bits, other.bits, kind.bit());
                }
            }
            if other@.subset_of(self@) {
                assert(other@.contains(EntryKind::Zero) ==> self@.contains(EntryKind::Zero));
                assert(other@.contains(EntryKind::Utf8) ==> self@.contains(EntryKind::Utf8));
                assert(other@.contains(EntryKind::Integer) ==> self@.contains(EntryKind::Integer));
                assert(other@.contains(EntryKind::Float) ==> self@.contains(EntryKind::Float));
                assert(other@.contains(EntryKind::Long) ==> self@.contains(EntryKind::Long));
                assert(other@.contains(EntryKind::Double) ==> self@.contains(EntryKind::Double));
                assert(other@.contains(EntryKind::ClassInfo) ==> self@.contains(
                    EntryKind::ClassInfo,
                ));
                assert(other@.contains(EntryKind::String) ==> self@.contains(EntryKind::String));
                assert(other@.contains(EntryKind::FieldRef) ==> self@.contains(
                    EntryKind::FieldRef,
                ));
                assert(other@.contains(EntryKind::MethodRef) ==> self@.contains(
                    EntryKind::MethodRef,
                ));
                assert(other@.contains(EntryKind::InterfaceMethodRef) ==> self@.contains(
                    EntryKind::InterfaceMethodRef,
                ));
                assert(other@.contains(EntryKind::NameAndType) ==> self@.contains(
                    EntryKind::NameAndType,
                ));
                assert(other@.contains(EntryKind::MethodHandle) ==> self@.contains(
                    EntryKind::MethodHandle,
                ));
                assert(other@.contains(EntryKind::MethodType) ==> self@.contains(
                    EntryKind::MethodType,
                ));
                assert(other@.contains(EntryKind::InvokeDynamic) ==> self@.contains(
                    EntryKind::InvokeDynamic,
                ));
                assert(other@.contains(EntryKind::Unused) ==> self@.contains(EntryKind::Unused));
                lemma_covered_all(self.bits, other.bits);
            }
        }
        all
    }

    /// A class, or the reserved entry at index 0.
    pub fn class_or_zero() -> (set: Self)
        ensures
            set@ == set![EntryKind::Zero, EntryKind::ClassInfo],
    {
        Self::of(EntryKind::Zero).union(Self::of(EntryKind::ClassInfo))
    }

    /// A method of a class or of an interface.
    pub fn new_method_refs() -> (set: Self)
        ensures
            set@ == set![EntryKind::MethodRef, EntryKind::InterfaceMethodRef],
    {
        Self::of(EntryKind::MethodRef).union(Self::of(EntryKind::InterfaceMethodRef))
    }

    /// The kinds that hold a constant value: the four numbers and the string.
    pub fn constants() -> (set: Self)
        ensures
            set@ == set![
                EntryKind::Integer,
                EntryKind::Float,
                EntryKind::Long,
                EntryKind::Double,
                EntryKind::String,
            ],
    {
        Self::of(EntryKind::Integer).union(Self::of(EntryKind::Float)).union(
            Self::of(EntryKind::Long),
        ).union(Self::of(EntryKind::Double)).union(Self::of(EntryKind::String))
    }

    /// Text, or the reserved entry at index 0.
    pub fn utf8_or_zero() -> (set: Self)
        ensures
            set@ == set![EntryKind::Zero, EntryKind::Utf8],
    {
        Self::of(EntryKind::Zero).union(Self::of(EntryKind::Utf8))
    }

    /// A name with its descriptor, or the reserved entry at index 0.
    pub fn name_and_type_or_zero() -> (set: Self)
        ensures
            set@ == set![EntryKind::Zero, EntryKind::NameAndType],
    {
        Self::of(EntryKind::Zero).union(Self::of(EntryKind::NameAndType))
    }
}

} // verus!
