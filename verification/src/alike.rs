//! Pools that differ in text and numbers only.
//!
//! Linking and checking look at the kind of each entry, at its references
//! and at the access mode of a method handle, and at nothing else. So what
//! they make of a pool, they make of every pool that is alike. In
//! particular they make the same of a pool and of its view.

use crate::entry::ConstantPoolEntry;
use crate::resolve::{
    first_fault, first_fault_below, resolution_error, resolvable, resolved_form, settled_within,
    settles,
};
use crate::validate::{
    first_ill_typed_below, fully_linked, slot_well_typed, validation_error, well_typed,
};
use vstd::prelude::*;

verus! {

/// Whether two entries have the same kind, the same references and, where
/// they are method handles, the same access mode.
pub open spec fn entry_alike<T, U>(a: ConstantPoolEntry<T>, b: ConstantPoolEntry<U>) -> bool {
    &&& a.kind() == b.kind()
    &&& a.refs() == b.refs()
    &&& a is MethodHandle ==> a->MethodHandle_0 == b->MethodHandle_0
}

/// Whether two pools have as many entries, and entries that are alike.
pub open spec fn alike<T, U>(a: Seq<ConstantPoolEntry<T>>, b: Seq<ConstantPoolEntry<U>>) -> bool {
    &&& a.len() == b.len()
    &&& forall|index: int| 0 <= index < a.len() ==> #[trigger] entry_alike(a[index], b[index])
}

/// The view of each entry of a pool.
pub open spec fn views<T: DeepView>(pool: Seq<ConstantPoolEntry<T>>) -> Seq<
    ConstantPoolEntry<T::V>,
> {
    Seq::new(pool.len(), |index: int| pool[index].deep_view())
}

/// A pool and its view are alike.
pub proof fn lemma_views_alike<T: DeepView>(pool: Seq<ConstantPoolEntry<T>>)
    ensures
        alike(pool, views(pool)),
{
}

/// Linking commutes with the view: the view of the fully linked pool is
/// the fully linked view.
pub proof fn lemma_views_of_resolved_form<T: DeepView>(pool: Seq<ConstantPoolEntry<T>>)
    ensures
        views(resolved_form(pool)) == resolved_form(views(pool)),
{
}

proof fn lemma_alike_faults<T, U>(
    a: Seq<ConstantPoolEntry<T>>,
    b: Seq<ConstantPoolEntry<U>>,
    end: nat,
)
    requires
        alike(a, b),
        end <= a.len(),
    ensures
        first_fault_below(a, end) == first_fault_below(b, end),
    decreases end,
{
    if end > 0 {
        lemma_alike_faults(a, b, (end - 1) as nat);
        assert(entry_alike(a[end - 1], b[end - 1]));
    }
}

proof fn lemma_alike_settled<T, U>(
    a: Seq<ConstantPoolEntry<T>>,
    b: Seq<ConstantPoolEntry<U>>,
    index: int,
    depth: nat,
)
    requires
        alike(a, b),
        settled_within(a, index, depth),
    ensures
        settled_within(b, index, depth),
    decreases depth,
{
    assert(entry_alike(a[index], b[index]));
    assert forall|slot: int|
        0 <= slot < b[index].refs().len() && #[trigger] b[index].refs()[slot] is Unresolved
        implies depth > 0 && settled_within(
        b,
        b[index].refs()[slot].index(),
        (depth - 1) as nat,
    ) by {
        lemma_alike_settled(a, b, a[index].refs()[slot].index(), (depth - 1) as nat);
    }
}

proof fn lemma_alike_flip<T, U>(a: Seq<ConstantPoolEntry<T>>, b: Seq<ConstantPoolEntry<U>>)
    requires
        alike(a, b),
    ensures
        alike(b, a),
{
    assert forall|index: int| 0 <= index < b.len() implies #[trigger] entry_alike(
        b[index],
        a[index],
    ) by {
        assert(entry_alike(a[index], b[index]));
    }
}

proof fn lemma_alike_resolvable<T, U>(a: Seq<ConstantPoolEntry<T>>, b: Seq<ConstantPoolEntry<U>>)
    requires
        alike(a, b),
        resolvable(a),
    ensures
        resolvable(b),
{
    assert forall|index: int| 0 <= index < b.len() implies settles(b, index) by {
        assert(settles(a, index));
        let depth = choose|depth: nat| settled_within(a, index, depth);
        lemma_alike_settled(a, b, index, depth);
    }
}

/// Linking ends in the same way on pools that are alike.
pub proof fn lemma_alike_resolution<T, U>(
    a: Seq<ConstantPoolEntry<T>>,
    b: Seq<ConstantPoolEntry<U>>,
)
    requires
        alike(a, b),
    ensures
        resolution_error(a) == resolution_error(b),
        first_fault(a) == first_fault(b),
        resolvable(a) == resolvable(b),
        alike(resolved_form(a), resolved_form(b)),
{
    lemma_alike_faults(a, b, a.len());
    lemma_alike_flip(a, b);
    if resolvable(a) {
        lemma_alike_resolvable(a, b);
    }
    if resolvable(b) {
        lemma_alike_resolvable(b, a);
    }
    assert forall|index: int| 0 <= index < a.len() implies #[trigger] entry_alike(
        resolved_form(a)[index],
        resolved_form(b)[index],
    ) by {
        assert(entry_alike(a[index], b[index]));
    }
}

proof fn lemma_alike_well_typed<T, U>(
    a: Seq<ConstantPoolEntry<T>>,
    b: Seq<ConstantPoolEntry<U>>,
    major_version: u16,
    index: int,
)
    requires
        alike(a, b),
        fully_linked(a),
        0 <= index < a.len(),
    ensures
        well_typed(a[index], a, major_version) == well_typed(b[index], b, major_version),
{
    assert(entry_alike(a[index], b[index]));
    assert forall|slot: int| 0 <= slot < a[index].refs().len() implies slot_well_typed(
        a[index],
        slot,
        a,
        major_version,
    ) == slot_well_typed(b[index], slot, b, major_version) by {
        let target = a[index].refs()[slot].index();
        assert(entry_alike(a[target], b[target]));
    }
}

proof fn lemma_alike_ill_typed<T, U>(
    a: Seq<ConstantPoolEntry<T>>,
    b: Seq<ConstantPoolEntry<U>>,
    major_version: u16,
    end: nat,
)
    requires
        alike(a, b),
        fully_linked(a),
        end <= a.len(),
    ensures
        first_ill_typed_below(a, major_version, end) == first_ill_typed_below(
            b,
            major_version,
            end,
        ),
    decreases end,
{
    if end > 0 {
        lemma_alike_ill_typed(a, b, major_version, (end - 1) as nat);
        lemma_alike_well_typed(a, b, major_version, end - 1);
    }
}

/// Checking ends in the same way on fully linked pools that are alike.
pub proof fn lemma_alike_validation<T, U>(
    a: Seq<ConstantPoolEntry<T>>,
    b: Seq<ConstantPoolEntry<U>>,
    major_version: u16,
)
    requires
        alike(a, b),
        fully_linked(a),
    ensures
        fully_linked(b),
        validation_error(a, major_version) == validation_error(b, major_version),
{
    lemma_alike_ill_typed(a, b, major_version, a.len());
    assert forall|index: int| 0 <= index < b.len() implies (#[trigger] b[index]).links_within(
        b.len() as int,
    ) by {
        assert(entry_alike(a[index], b[index]));
    }
}

} // verus!
