//! The entries of a pool and the references between them.
//!
//! A pool is a sequence of entries. An entry never holds another entry: it
//! holds the index of the entry it refers to, together with the state of
//! that reference, raw or linked.

use crate::error::PoolError;
use crate::kinds::{ConstantPoolEntryTypes, EntryKind, ReferenceKind};
use std::borrow::Cow;
use vstd::prelude::*;

verus! {

/// A reference from one entry to another, by index.
///
/// It is read from the bytes as `Unresolved`. Linking turns it into
/// `Resolved` with the same index, once the entry at that index is itself
/// fully linked, and never turns it back.
#[derive(Debug, Clone, Copy, PartialEq, Eq, Structural)]
pub enum ConstantPoolRef {
    Unresolved(u16),
    Resolved(u16),
}

impl ConstantPoolRef {
    /// The index of the entry referred to, in either state.
    pub open spec fn index(self) -> int {
        match self {
            ConstantPoolRef::Unresolved(target) => target as int,
            ConstantPoolRef::Resolved(target) => target as int,
        }
    }

    /// The same reference in its linked state.
    pub open spec fn linked(self) -> ConstantPoolRef {
        match self {
            ConstantPoolRef::Unresolved(target) => ConstantPoolRef::Resolved(target),
            ConstantPoolRef::Resolved(target) => ConstantPoolRef::Resolved(target),
        }
    }

    /// Whether the reference is linked.
    pub fn is_resolved(&self) -> (resolved: bool)
        ensures
            resolved == (*self is Resolved),
    {
        match self {
            ConstantPoolRef::Unresolved(_) => false,
            ConstantPoolRef::Resolved(_) => true,
        }
    }

    /// Whether the reference is linked and points into a pool of `len`
    /// entries.
    pub fn points_within(&self, len: usize) -> (within: bool)
        ensures
            within == (*self is Resolved && self.index() < len),
    {
        match self {
            ConstantPoolRef::Unresolved(_) => false,
            ConstantPoolRef::Resolved(target) => (*target as usize) < len,
        }
    }

    /// The entry that a linked reference points to.
    pub fn get<'a, T>(&self, pool: &'a [ConstantPoolEntry<T>]) -> (target: &'a ConstantPoolEntry<
        T,
    >)
        requires
            *self is Resolved,
            self.index() < pool@.len(),
        ensures
            *target == pool@[self.index()],
    {
        match self {
            ConstantPoolRef::Unresolved(target) => &pool[*target as usize],
            ConstantPoolRef::Resolved(target) => &pool[*target as usize],
        }
    }

    /// Checks that a linked reference points to an entry of an allowed kind.
    pub fn ensure_type<T>(
        &self,
        pool: &[ConstantPoolEntry<T>],
        allowed: ConstantPoolEntryTypes,
    ) -> (checked: Result<bool, PoolError>)
        requires
            *self is Resolved,
            self.index() < pool@.len(),
        ensures
            allowed@.contains(pool@[self.index()].kind()) ==> checked == Ok::<bool, PoolError>(
                true,
            ),
            !allowed@.contains(pool@[self.index()].kind()) ==> checked == Err::<bool, PoolError>(
                PoolError::UnexpectedType,
            ),
    {
        self.get(pool).ensure_type(allowed)
    }
}

/// An index into the table of bootstrap methods. That table lies outside
/// the pool and is linked by its own reader, so the index stays raw here.
#[derive(Debug, Clone, Copy, PartialEq, Eq, Structural)]
pub enum BootstrapMethodRef {
    Unresolved(u16),
}

/// One entry of a pool.
///
/// `T` is the type that holds text: in compiled code a string that is
/// owned or borrowed from the bytes, in specifications `Seq<char>`. Numbers with a fraction are held as the bits that
/// were read, `Float` in 32 and `Double` in 64.
#[derive(Debug, Clone, PartialEq, Eq)]
pub enum ConstantPoolEntry<T> {
    /// The reserved entry at index 0.
    Zero,
    Utf8(T),
    Integer(i32),
    Float(u32),
    Long(i64),
    Double(u64),
    /// A class, by its name.
    ClassInfo(ConstantPoolRef),
    /// A string constant, by its text.
    String(ConstantPoolRef),
    /// A field, by its class and by its name and type.
    FieldRef(ConstantPoolRef, ConstantPoolRef),
    /// A method of a class, by its class and by its name and type.
    MethodRef(ConstantPoolRef, ConstantPoolRef),
    /// A method of an interface, by its class and by its name and type.
    InterfaceMethodRef(ConstantPoolRef, ConstantPoolRef),
    /// A name and a descriptor.
    NameAndType(ConstantPoolRef, ConstantPoolRef),
    /// A handle on a field or method, with its access mode.
    MethodHandle(ReferenceKind, ConstantPoolRef),
    /// A method type, by its descriptor.
    MethodType(ConstantPoolRef),
    /// A dynamic call site, by its bootstrap method and its name and type.
    InvokeDynamic(BootstrapMethodRef, ConstantPoolRef),
    /// The second slot of a `Long` or a `Double`. Nothing refers to it.
    Unused,
}

impl<T: DeepView> DeepView for ConstantPoolEntry<T> {
    type V = ConstantPoolEntry<T::V>;

    open spec fn deep_view(&self) -> ConstantPoolEntry<T::V> {
        match *self {
            ConstantPoolEntry::Zero => ConstantPoolEntry::Zero,
            ConstantPoolEntry::Utf8(text) => ConstantPoolEntry::Utf8(text.deep_view()),
            ConstantPoolEntry::Integer(value) => ConstantPoolEntry::Integer(value),
            ConstantPoolEntry::Float(bits) => ConstantPoolEntry::Float(bits),
            ConstantPoolEntry::Long(value) => ConstantPoolEntry::Long(value),
            ConstantPoolEntry::Double(bits) => ConstantPoolEntry::Double(bits),
            ConstantPoolEntry::ClassInfo(name) => ConstantPoolEntry::ClassInfo(name),
            ConstantPoolEntry::String(value) => ConstantPoolEntry::String(value),
            ConstantPoolEntry::FieldRef(class, member) => ConstantPoolEntry::FieldRef(
                class,
                member,
            ),
            ConstantPoolEntry::MethodRef(class, member) => ConstantPoolEntry::MethodRef(
                class,
                member,
            ),
            ConstantPoolEntry::InterfaceMethodRef(
                class,
                member,
            ) => ConstantPoolEntry::InterfaceMethodRef(class, member),
            ConstantPoolEntry::NameAndType(name, descriptor) => ConstantPoolEntry::NameAndType(
                name,
                descriptor,
            ),
            ConstantPoolEntry::MethodHandle(mode, member) => ConstantPoolEntry::MethodHandle(
                mode,
                member,
            ),
            ConstantPoolEntry::MethodType(descriptor) => ConstantPoolEntry::MethodType(descriptor),
            ConstantPoolEntry::InvokeDynamic(bootstrap, member) => ConstantPoolEntry::InvokeDynamic(
                bootstrap,
                member,
            ),
            ConstantPoolEntry::Unused => ConstantPoolEntry::Unused,
        }
    }
}

impl<T> ConstantPoolEntry<T> {
    /// The kind of this entry.
    pub open spec fn kind(self) -> EntryKind {
        match self {
            ConstantPoolEntry::Zero => EntryKind::Zero,
            ConstantPoolEntry::Utf8(_) => EntryKind::Utf8,
            ConstantPoolEntry::Integer(_) => EntryKind::Integer,
            ConstantPoolEntry::Float(_) => EntryKind::Float,
            ConstantPoolEntry::Long(_) => EntryKind::Long,
            ConstantPoolEntry::Double(_) => EntryKind::Double,
            ConstantPoolEntry::ClassInfo(_) => EntryKind::ClassInfo,
            ConstantPoolEntry::String(_) => EntryKind::String,
            ConstantPoolEntry::FieldRef(_, _) => EntryKind::FieldRef,
            ConstantPoolEntry::MethodRef(_, _) => EntryKind::MethodRef,
            ConstantPoolEntry::InterfaceMethodRef(_, _) => EntryKind::InterfaceMethodRef,
            ConstantPoolEntry::NameAndType(_, _) => EntryKind::NameAndType,
            ConstantPoolEntry::MethodHandle(_, _) => EntryKind::MethodHandle,
            ConstantPoolEntry::MethodType(_) => EntryKind::MethodType,
            ConstantPoolEntry::InvokeDynamic(_, _) => EntryKind::InvokeDynamic,
            ConstantPoolEntry::Unused => EntryKind::Unused,
        }
    }

    /// The references that leave this entry, in the order in which they
    /// are read and linked. There are at most two.
    pub open spec fn refs(self) -> Seq<ConstantPoolRef> {
        match self {
            ConstantPoolEntry::ClassInfo(name) => seq![name],
            ConstantPoolEntry::String(value) => seq![value],
            ConstantPoolEntry::FieldRef(class, member) => seq![class, member],
            ConstantPoolEntry::MethodRef(class, member) => seq![class, member],
            ConstantPoolEntry::InterfaceMethodRef(class, member) => seq![class, member],
            ConstantPoolEntry::NameAndType(name, descriptor) => seq![name, descriptor],
            ConstantPoolEntry::MethodHandle(_, member) => seq![member],
            ConstantPoolEntry::MethodType(descriptor) => seq![descriptor],
            ConstantPoolEntry::InvokeDynamic(_, member) => seq![member],
            _ => Seq::<ConstantPoolRef>::empty(),
        }
    }

    /// This entry with `refs` in place of its own references. Where `refs`
    /// is shorter than [`Self::refs`], the reference that is missing stays.
    pub open spec fn with_refs(self, refs: Seq<ConstantPoolRef>) -> Self {
        let first = if refs.len() > 0 {
            refs[0]
        } else {
            self.refs()[0]
        };
        let second = if refs.len() > 1 {
            refs[1]
        } else {
            self.refs()[1]
        };
        match self {
            ConstantPoolEntry::ClassInfo(_) => ConstantPoolEntry::ClassInfo(first),
            ConstantPoolEntry::String(_) => ConstantPoolEntry::String(first),
            ConstantPoolEntry::FieldRef(_, _) => ConstantPoolEntry::FieldRef(first, second),
            ConstantPoolEntry::MethodRef(_, _) => ConstantPoolEntry::MethodRef(first, second),
            ConstantPoolEntry::InterfaceMethodRef(_, _) => ConstantPoolEntry::InterfaceMethodRef(
                first,
                second,
            ),
            ConstantPoolEntry::NameAndType(_, _) => ConstantPoolEntry::NameAndType(first, second),
            ConstantPoolEntry::MethodHandle(mode, _) => ConstantPoolEntry::MethodHandle(
                mode,
                first,
            ),
            ConstantPoolEntry::MethodType(_) => ConstantPoolEntry::MethodType(first),
            ConstantPoolEntry::InvokeDynamic(bootstrap, _) => ConstantPoolEntry::InvokeDynamic(
                bootstrap,
                first,
            ),
            _ => self,
        }
    }

    /// Whether every reference of this entry is linked. An entry without
    /// references is.
    pub open spec fn spec_is_resolved(&self) -> bool {
        forall|slot: int| 0 <= slot < self.refs().len() ==> #[trigger] self.refs()[slot] is Resolved
    }

    /// Whether every reference of this entry is linked and points into a
    /// pool of `len` entries.
    pub open spec fn links_within(self, len: int) -> bool {
        forall|slot: int|
            0 <= slot < self.refs().len() ==> {
                &&& #[trigger] self.refs()[slot] is Resolved
                &&& self.refs()[slot].index() < len
            }
    }

    /// Whether every reference of this entry is linked.
    #[verifier::when_used_as_spec(spec_is_resolved)]
    pub fn is_resolved(&self) -> (resolved: bool)
        ensures
            resolved == self.spec_is_resolved(),
    {
        match self {
            ConstantPoolEntry::ClassInfo(x) => {
                assert(self.refs()[0] == *x);
                x.is_resolved()
            },
            ConstantPoolEntry::String(x) => {
                x.is_resolved()
            },
            ConstantPoolEntry::FieldRef(x, y) => {
                x.is_resolved() && y.is_resolved()
            },
            ConstantPoolEntry::MethodRef(x, y) => {
                x.is_resolved() && y.is_resolved()
            },
            ConstantPoolEntry::InterfaceMethodRef(x, y) => {
                x.is_resolved() && y.is_resolved()
            },
            ConstantPoolEntry::NameAndType(x, y) => {
                x.is_resolved() && y.is_resolved()
            },
            ConstantPoolEntry::MethodHandle(_, y) => {
                y.is_resolved()
            },
            ConstantPoolEntry::MethodType(x) => {
                x.is_resolved()
            },
            ConstantPoolEntry::InvokeDynamic(_, y) => {
                y.is_resolved()
            },
            _ => true,
        }
    }

    /// Whether every reference of this entry is linked and points into a
    /// pool of `len` entries.
    pub fn is_linked_within(&self, len: usize) -> (linked: bool)
        ensures
            linked == self.links_within(len as int),
    {
        match self {
            ConstantPoolEntry::ClassInfo(x) | ConstantPoolEntry::String(x)
            | ConstantPoolEntry::MethodType(x) | ConstantPoolEntry::MethodHandle(_, x)
            | ConstantPoolEntry::InvokeDynamic(_, x) => {
                assert(self.refs()[0] == *x);
                x.points_within(len)
            },
            ConstantPoolEntry::FieldRef(x, y) | ConstantPoolEntry::MethodRef(x, y)
            | ConstantPoolEntry::InterfaceMethodRef(x, y) | ConstantPoolEntry::NameAndType(
                x,
                y,
            ) => {
                x.points_within(len) && y.points_within(len)
            },
            _ => true,
        }
    }

    /// The kind of this entry.
    pub fn entry_kind(&self) -> (kind: EntryKind)
        ensures
            kind == self.kind(),
    {
        match self {
            ConstantPoolEntry::Zero => EntryKind::Zero,
            ConstantPoolEntry::Utf8(_) => EntryKind::Utf8,
            ConstantPoolEntry::Integer(_) => EntryKind::Integer,
            ConstantPoolEntry::Float(_) => EntryKind::Float,
            ConstantPoolEntry::Long(_) => EntryKind::Long,
            ConstantPoolEntry::Double(_) => EntryKind::Double,
            ConstantPoolEntry::ClassInfo(_) => EntryKind::ClassInfo,
            ConstantPoolEntry::String(_) => EntryKind::String,
            ConstantPoolEntry::FieldRef(_, _) => EntryKind::FieldRef,
            ConstantPoolEntry::MethodRef(_, _) => EntryKind::MethodRef,
            ConstantPoolEntry::InterfaceMethodRef(_, _) => EntryKind::InterfaceMethodRef,
            ConstantPoolEntry::NameAndType(_, _) => EntryKind::NameAndType,
            ConstantPoolEntry::MethodHandle(_, _) => EntryKind::MethodHandle,
            ConstantPoolEntry::MethodType(_) => EntryKind::MethodType,
            ConstantPoolEntry::InvokeDynamic(_, _) => EntryKind::InvokeDynamic,
            ConstantPoolEntry::Unused => EntryKind::Unused,
        }
    }

    /// The kind of this entry, as a set of one kind.
    pub fn get_type(&self) -> (kinds: ConstantPoolEntryTypes)
        ensures
            kinds@ == set![self.kind()],
            kinds.bits == self.kind().bit(),
    {
        ConstantPoolEntryTypes::of(self.entry_kind())
    }

    /// Checks that the kind of this entry is one of `allowed`.
    pub fn ensure_type(&self, allowed: ConstantPoolEntryTypes) -> (checked: Result<
        bool,
        PoolError,
    >)
        ensures
            allowed@.contains(self.kind()) ==> checked == Ok::<bool, PoolError>(true),
            !allowed@.contains(self.kind()) ==> checked == Err::<bool, PoolError>(
                PoolError::UnexpectedType,
            ),
    {
        let own = self.get_type();
        if allowed.contains(own) {
            Ok(true)
        } else {
            Err(PoolError::UnexpectedType)
        }
    }
}

impl<'a> ConstantPoolEntry<Cow<'a, str>> {
    /// The text of a `Utf8` entry.
    pub fn utf8(&self) -> (text: Cow<'a, str>)
        requires
            *self is Utf8,
        ensures
            text == self->Utf8_0,
    {
        match self {
            ConstantPoolEntry::Utf8(text) => match text {
                Cow::Borrowed(borrowed) => Cow::Borrowed(*borrowed),
                Cow::Owned(owned) => Cow::Owned(owned.clone()),
            },
            _ => Cow::Borrowed(""),
        }
    }

    /// The name of a class, read through the linked name reference of a
    /// `ClassInfo` entry.
    pub fn classinfo_utf8(&self, pool: &[ConstantPoolEntry<Cow<'a, str>>]) -> (name: Cow<'a, str>)
        requires
            *self is ClassInfo,
            self->ClassInfo_0 is Resolved,
            self->ClassInfo_0.index() < pool@.len(),
            pool@[self->ClassInfo_0.index()] is Utf8,
        ensures
            name == pool@[self->ClassInfo_0.index()]->Utf8_0,
    {
        match self {
            ConstantPoolEntry::ClassInfo(name) => name.get(pool).utf8(),
            _ => Cow::Borrowed(""),
        }
    }
}

} // verus!
