//! Linking: turning the raw index of every reference into a link.
//!
//! A reference can be linked once the entry it points to is itself fully
//! linked. Entries may point forwards or backwards, so the pool is scanned
//! again and again, until everything is linked or a scan links no entry.

use crate::entry::{ConstantPoolEntry, ConstantPoolRef};
use crate::error::PoolError;
use vstd::prelude::*;

verus! {

/// What is wrong with a reference of the entry at `index`, in a pool of
/// `len` entries. Only a raw reference can be at fault: one that points to
/// its own entry, or past the end of the pool.
pub open spec fn ref_fault(index: int, len: int, r: ConstantPoolRef) -> Option<PoolError> {
    match r {
        ConstantPoolRef::Resolved(_) => None,
        ConstantPoolRef::Unresolved(target) => if target == index {
            Some(PoolError::SelfReference { index: index as usize })
        } else if target >= len {
            Some(PoolError::OutOfBoundsReference { index: index as usize, target: target as usize })
        } else {
            None
        },
    }
}

/// The fault of the entry at `index`: that of its first reference at fault.
pub open spec fn entry_fault<T>(pool: Seq<ConstantPoolEntry<T>>, index: int) -> Option<PoolError> {
    let refs = pool[index].refs();
    if refs.len() > 0 && ref_fault(index, pool.len() as int, refs[0]) is Some {
        ref_fault(index, pool.len() as int, refs[0])
    } else if refs.len() > 1 {
        ref_fault(index, pool.len() as int, refs[1])
    } else {
        None
    }
}

/// The fault of the first entry below `end` that has one.
pub open spec fn first_fault_below<T>(pool: Seq<ConstantPoolEntry<T>>, end: nat) -> Option<
    PoolError,
>
    decreases end,
{
    if end == 0 {
        None
    } else if first_fault_below(pool, (end - 1) as nat) is Some {
        first_fault_below(pool, (end - 1) as nat)
    } else {
        entry_fault(pool, end - 1)
    }
}

/// The fault of the first entry of the pool that has one.
pub open spec fn first_fault<T>(pool: Seq<ConstantPoolEntry<T>>) -> Option<PoolError> {
    first_fault_below(pool, pool.len())
}

/// Whether the entry at `index` can be fully linked by following raw
/// references at most `depth` entries deep: each of its raw references
/// points to an entry that can be fully linked within `depth - 1`.
pub open spec fn settled_within<T>(pool: Seq<ConstantPoolEntry<T>>, index: int, depth: nat) -> bool
    decreases depth,
{
    &&& 0 <= index < pool.len()
    &&& forall|slot: int|
        0 <= slot < pool[index].refs().len() && #[trigger] pool[index].refs()[slot] is Unresolved
            ==> depth > 0 && settled_within(
            pool,
            pool[index].refs()[slot].index(),
            (depth - 1) as nat,
        )
}

/// Whether the entry at `index` can be fully linked at all.
pub open spec fn settles<T>(pool: Seq<ConstantPoolEntry<T>>, index: int) -> bool {
    exists|depth: nat| settled_within(pool, index, depth)
}

/// Whether every entry can be fully linked: no chain of raw references
/// runs into a cycle or out of the pool.
pub open spec fn resolvable<T>(pool: Seq<ConstantPoolEntry<T>>) -> bool {
    forall|index: int| 0 <= index < pool.len() ==> settles(pool, index)
}

/// How linking a pool ends: with the first fault that a scan meets; else,
/// if some entry cannot be fully linked, as unresolvable; else well.
pub open spec fn resolution_error<T>(pool: Seq<ConstantPoolEntry<T>>) -> Option<PoolError> {
    if first_fault(pool) is Some {
        first_fault(pool)
    } else if resolvable(pool) {
        None
    } else {
        Some(PoolError::Unresolvable)
    }
}

/// The pool with every reference linked.
pub open spec fn resolved_form<T>(pool: Seq<ConstantPoolEntry<T>>) -> Seq<ConstantPoolEntry<T>> {
    Seq::new(
        pool.len(),
        |index: int|
            pool[index].with_refs(
                Seq::new(
                    pool[index].refs().len(),
                    |slot: int| pool[index].refs()[slot].linked(),
                ),
            ),
    )
}

/// A raw reference after one attempt to link it against `pool`.
pub open spec fn ref_step<T>(r: ConstantPoolRef, pool: Seq<ConstantPoolEntry<T>>) -> ConstantPoolRef {
    if r is Unresolved && pool[r.index()].is_resolved() {
        r.linked()
    } else {
        r
    }
}

/// The entry at `index` after one attempt to link each of its references.
pub open spec fn entry_step<T>(pool: Seq<ConstantPoolEntry<T>>, index: int) -> ConstantPoolEntry<
    T,
> {
    pool[index].with_refs(
        Seq::new(pool[index].refs().len(), |slot: int| ref_step(pool[index].refs()[slot], pool)),
    )
}

/// Whether `later` is `earlier`, or `earlier` linked.
pub open spec fn ref_advanced(earlier: ConstantPoolRef, later: ConstantPoolRef) -> bool {
    later == earlier || (earlier is Unresolved && later == earlier.linked())
}

/// Whether `later` is `earlier` with some of its raw references linked,
/// and nothing else changed.
pub open spec fn entry_advanced<T>(earlier: ConstantPoolEntry<T>, later: ConstantPoolEntry<T>) -> bool {
    &&& later == earlier.with_refs(later.refs())
    &&& later.refs().len() == earlier.refs().len()
    &&& forall|slot: int|
        #![trigger earlier.refs()[slot]]
        #![trigger later.refs()[slot]]
        0 <= slot < earlier.refs().len() ==> ref_advanced(earlier.refs()[slot], later.refs()[slot])
}

/// Whether `later` is the pool `earlier` with some raw references linked,
/// and nothing else changed.
pub open spec fn advanced<T>(
    earlier: Seq<ConstantPoolEntry<T>>,
    later: Seq<ConstantPoolEntry<T>>,
) -> bool {
    &&& later.len() == earlier.len()
    &&& forall|index: int|
        0 <= index < earlier.len() ==> #[trigger] entry_advanced(earlier[index], later[index])
}

/// The number of fully linked entries below `end`.
pub open spec fn count_resolved_below<T>(pool: Seq<ConstantPoolEntry<T>>, end: nat) -> nat
    decreases end,
{
    if end == 0 {
        0
    } else {
        count_resolved_below(pool, (end - 1) as nat) + if pool[end - 1].is_resolved() {
            1nat
        } else {
            0nat
        }
    }
}

/// The number of fully linked entries.
pub open spec fn count_resolved<T>(pool: Seq<ConstantPoolEntry<T>>) -> nat {
    count_resolved_below(pool, pool.len())
}

/// Every link that `current` has and `origin` lacks points to an entry
/// that can be fully linked in `origin`.
#[verifier::opaque]
spec fn sound<T>(origin: Seq<ConstantPoolEntry<T>>, current: Seq<ConstantPoolEntry<T>>) -> bool {
    forall|index: int, slot: int|
        0 <= index < origin.len() && 0 <= slot < origin[index].refs().len()
            && origin[index].refs()[slot] is Unresolved
            && #[trigger] current[index].refs()[slot] is Resolved ==> settles(
            origin,
            origin[index].refs()[slot].index(),
        )
}

/// Every raw reference of an entry below `end` points to an entry of the
/// pool that is not fully linked.
#[verifier::opaque]
spec fn blocked_below<T>(pool: Seq<ConstantPoolEntry<T>>, end: int) -> bool {
    forall|index: int, slot: int|
        0 <= index < end && 0 <= slot < pool[index].refs().len()
            && #[trigger] pool[index].refs()[slot] is Unresolved ==> {
            &&& 0 <= pool[index].refs()[slot].index() < pool.len()
            &&& !pool[pool[index].refs()[slot].index()].is_resolved()
        }
}

/// The same entries are fully linked in both pools.
#[verifier::opaque]
spec fn same_progress<T>(a: Seq<ConstantPoolEntry<T>>, b: Seq<ConstantPoolEntry<T>>) -> bool {
    forall|index: int|
        0 <= index < a.len() ==> #[trigger] a[index].is_resolved() == b[index].is_resolved()
}

/// No entry below `end` has a fault.
#[verifier::opaque]
spec fn faultless_below<T>(pool: Seq<ConstantPoolEntry<T>>, end: int) -> bool {
    forall|index: int| 0 <= index < end ==> #[trigger] entry_fault(pool, index) is None
}

/// What has advanced twice has advanced.
proof fn lemma_entry_advanced_chain<T>(
    a: ConstantPoolEntry<T>,
    b: ConstantPoolEntry<T>,
    c: ConstantPoolEntry<T>,
)
    requires
        entry_advanced(a, b),
        entry_advanced(b, c),
    ensures
        entry_advanced(a, c),
{
}

/// A fully linked entry stays fully linked.
proof fn lemma_entry_advanced_keeps_links<T>(a: ConstantPoolEntry<T>, b: ConstantPoolEntry<T>)
    requires
        entry_advanced(a, b),
        a.is_resolved(),
    ensures
        b.is_resolved(),
{
}

/// An entry that can be fully linked within some depth can be within any
/// greater depth.
pub proof fn lemma_settled_deeper<T>(pool: Seq<ConstantPoolEntry<T>>, index: int, depth: nat, deeper: nat)
    requires
        settled_within(pool, index, depth),
        depth <= deeper,
    ensures
        settled_within(pool, index, deeper),
    decreases depth,
{
    assert forall|slot: int|
        0 <= slot < pool[index].refs().len() && #[trigger] pool[index].refs()[slot] is Unresolved
        implies deeper > 0 && settled_within(
        pool,
        pool[index].refs()[slot].index(),
        (deeper - 1) as nat,
    ) by {
        lemma_settled_deeper(
            pool,
            pool[index].refs()[slot].index(),
            (depth - 1) as nat,
            (deeper - 1) as nat,
        );
    }
}

/// An entry can be fully linked where each target of its raw references
/// can be.
proof fn lemma_settles_from_targets<T>(pool: Seq<ConstantPoolEntry<T>>, index: int)
    requires
        0 <= index < pool.len(),
        forall|slot: int|
            0 <= slot < pool[index].refs().len() && #[trigger] pool[index].refs()[slot] is Unresolved
                ==> settles(pool, pool[index].refs()[slot].index()),
    ensures
        settles(pool, index),
{
    let refs = pool[index].refs();
    let d0: nat = if refs.len() > 0 && refs[0] is Unresolved {
        choose|depth: nat| settled_within(pool, refs[0].index(), depth)
    } else {
        0
    };
    let d1: nat = if refs.len() > 1 && refs[1] is Unresolved {
        choose|depth: nat| settled_within(pool, refs[1].index(), depth)
    } else {
        0
    };
    let d: nat = if d0 > d1 {
        d0
    } else {
        d1
    };
    assert forall|slot: int|
        0 <= slot < pool[index].refs().len() && #[trigger] pool[index].refs()[slot] is Unresolved
        implies settled_within(pool, pool[index].refs()[slot].index(), d) by {
        if slot == 0 {
            lemma_settled_deeper(pool, refs[0].index(), d0, d);
        } else {
            lemma_settled_deeper(pool, refs[1].index(), d1, d);
        }
    }
    assert(settled_within(pool, index, d + 1));
}

/// An entry that is fully linked by now could be fully linked in the pool
/// that linking started from.
proof fn lemma_linked_entry_settles<T>(
    origin: Seq<ConstantPoolEntry<T>>,
    current: Seq<ConstantPoolEntry<T>>,
    index: int,
)
    requires
        advanced(origin, current),
        sound(origin, current),
        0 <= index < current.len(),
        current[index].is_resolved(),
    ensures
        settles(origin, index),
{
    reveal(sound);
    assert(entry_advanced(origin[index], current[index]));
    lemma_settles_from_targets(origin, index);
}

/// A fault that was found below `found` is the one found below any later
/// `end`.
proof fn lemma_first_fault_sticks<T>(pool: Seq<ConstantPoolEntry<T>>, found: nat, end: nat)
    requires
        found <= end,
        first_fault_below(pool, found) is Some,
    ensures
        first_fault_below(pool, end) == first_fault_below(pool, found),
    decreases end,
{
    if found < end {
        lemma_first_fault_sticks(pool, found, (end - 1) as nat);
    }
}

/// No fault is found below `end` exactly where no entry below `end` has
/// one.
proof fn lemma_no_fault_below<T>(pool: Seq<ConstantPoolEntry<T>>, end: nat)
    ensures
        first_fault_below(pool, end) is None <==> faultless_below(pool, end as int),
    decreases end,
{
    reveal(faultless_below);
    if end > 0 {
        lemma_no_fault_below(pool, (end - 1) as nat);
    }
}

/// No fault is found exactly where no entry has one.
pub proof fn lemma_faultless<T>(pool: Seq<ConstantPoolEntry<T>>)
    ensures
        first_fault(pool) is None <==> forall|index: int|
            0 <= index < pool.len() ==> #[trigger] entry_fault(pool, index) is None,
{
    lemma_no_fault_below(pool, pool.len());
    reveal(faultless_below);
}

/// The count below `end` looks at the entries below `end` only.
proof fn lemma_count_frame<T>(a: Seq<ConstantPoolEntry<T>>, b: Seq<ConstantPoolEntry<T>>, end: nat)
    requires
        forall|index: int| 0 <= index < end ==> a[index] == b[index],
    ensures
        count_resolved_below(a, end) == count_resolved_below(b, end),
    decreases end,
{
    if end > 0 {
        lemma_count_frame(a, b, (end - 1) as nat);
    }
}

/// A pool that has advanced has at least as many fully linked entries,
/// and as many only where the same entries are fully linked.
proof fn lemma_count_compare<T>(
    a: Seq<ConstantPoolEntry<T>>,
    b: Seq<ConstantPoolEntry<T>>,
    end: nat,
)
    requires
        end <= a.len(),
        advanced(a, b),
    ensures
        count_resolved_below(a, end) <= count_resolved_below(b, end) <= end,
        count_resolved_below(a, end) == count_resolved_below(b, end) ==> forall|index: int|
            0 <= index < end ==> #[trigger] a[index].is_resolved() == b[index].is_resolved(),
    decreases end,
{
    if end > 0 {
        lemma_count_compare(a, b, (end - 1) as nat);
        if a[end - 1].is_resolved() {
            lemma_entry_advanced_keeps_links(a[end - 1], b[end - 1]);
        }
    }
}

/// The count below `end` is `end` exactly where every entry below `end` is
/// fully linked.
proof fn lemma_count_full<T>(pool: Seq<ConstantPoolEntry<T>>, end: nat)
    ensures
        count_resolved_below(pool, end) <= end,
        count_resolved_below(pool, end) == end <==> (forall|index: int|
            0 <= index < end ==> #[trigger] pool[index].is_resolved()),
    decreases end,
{
    if end > 0 {
        lemma_count_full(pool, (end - 1) as nat);
    }
}

/// Where every raw reference is blocked, each entry that could be fully
/// linked in the pool that linking started from is fully linked already.
proof fn lemma_blocked_never_links<T>(
    origin: Seq<ConstantPoolEntry<T>>,
    current: Seq<ConstantPoolEntry<T>>,
    index: int,
    depth: nat,
)
    requires
        advanced(origin, current),
        blocked_below(current, current.len() as int),
        settled_within(origin, index, depth),
    ensures
        current[index].is_resolved(),
    decreases depth,
{
    assert(entry_advanced(origin[index], current[index]));
    assert forall|slot: int| 0 <= slot < current[index].refs().len() implies #[trigger] current[index].refs()[slot] is Resolved by {
        if current[index].refs()[slot] is Unresolved {
            let target = current[index].refs()[slot].index();
            lemma_blocked_never_links(origin, current, target, (depth - 1) as nat);
            assert(!current[target].is_resolved()) by {
                reveal(blocked_below);
            }
        }
    }
}

/// A pool that has advanced until every entry is fully linked is the pool
/// it started from with every reference linked.
proof fn lemma_fully_linked_form<T>(
    origin: Seq<ConstantPoolEntry<T>>,
    current: Seq<ConstantPoolEntry<T>>,
)
    requires
        advanced(origin, current),
        forall|index: int| 0 <= index < current.len() ==> #[trigger] current[index].is_resolved(),
    ensures
        current == resolved_form(origin),
{
    assert forall|index: int| 0 <= index < current.len() implies current[index] == resolved_form(
        origin,
    )[index] by {
        assert(entry_advanced(origin[index], current[index]));
        assert(current[index].is_resolved());
    }
}

/// One step of a scan leaves the pool advanced.
proof fn lemma_step_advanced<T>(
    earlier: Seq<ConstantPoolEntry<T>>,
    current: Seq<ConstantPoolEntry<T>>,
    next: Seq<ConstantPoolEntry<T>>,
    index: int,
)
    requires
        0 <= index < current.len(),
        advanced(earlier, current),
        next == current.update(index, entry_step(current, index)),
    ensures
        advanced(earlier, next),
{
    assert forall|k: int| 0 <= k < earlier.len() implies #[trigger] entry_advanced(
        earlier[k],
        next[k],
    ) by {
        if k == index {
            lemma_entry_advanced_chain(earlier[k], current[k], next[k]);
        }
    }
}

/// One step of a scan links only what could be linked in the pool that
/// linking started from.
proof fn lemma_step_sound<T>(
    origin: Seq<ConstantPoolEntry<T>>,
    current: Seq<ConstantPoolEntry<T>>,
    next: Seq<ConstantPoolEntry<T>>,
    index: int,
)
    requires
        0 <= index < current.len(),
        advanced(origin, current),
        sound(origin, current),
        entry_fault(current, index) is None,
        next == current.update(index, entry_step(current, index)),
    ensures
        sound(origin, next),
{
    assert forall|k: int, slot: int|
        0 <= k < origin.len() && 0 <= slot < origin[k].refs().len()
            && origin[k].refs()[slot] is Unresolved
            && #[trigger] next[k].refs()[slot] is Resolved implies settles(
        origin,
        origin[k].refs()[slot].index(),
    ) by {
        assert(entry_advanced(origin[k], current[k]));
        if k == index && current[k].refs()[slot] is Unresolved {
            let target = current[k].refs()[slot].index();
            lemma_linked_entry_settles(origin, current, target);
        } else {
            reveal(sound);
        }
    }
    reveal(sound);
}

/// One step of a scan leaves no fault up to the entry that it tried.
proof fn lemma_step_faultless<T>(
    current: Seq<ConstantPoolEntry<T>>,
    next: Seq<ConstantPoolEntry<T>>,
    index: int,
)
    requires
        0 <= index < current.len(),
        faultless_below(current, index),
        entry_fault(current, index) is None,
        next == current.update(index, entry_step(current, index)),
    ensures
        faultless_below(next, index + 1),
{
    reveal(faultless_below);
    assert forall|k: int| 0 <= k < index + 1 implies #[trigger] entry_fault(next, k) is None by {
        if k < index {
            assert(entry_fault(current, k) is None);
        }
    }
}

/// Where no entry has become fully linked since the scan started, one
/// step leaves every raw reference up to the entry that it tried blocked.
proof fn lemma_step_blocked<T>(
    before: Seq<ConstantPoolEntry<T>>,
    current: Seq<ConstantPoolEntry<T>>,
    next: Seq<ConstantPoolEntry<T>>,
    index: int,
)
    requires
        0 <= index < current.len(),
        before.len() == current.len(),
        current[index] == before[index],
        same_progress(before, current) ==> blocked_below(current, index),
        entry_fault(current, index) is None,
        next == current.update(index, entry_step(current, index)),
    ensures
        same_progress(before, next) ==> blocked_below(next, index + 1),
{
    if same_progress(before, next) {
        assert(same_progress(before, current)) by {
            reveal(same_progress);
        }
        assert forall|k: int, slot: int|
            0 <= k < index + 1 && 0 <= slot < next[k].refs().len()
                && #[trigger] next[k].refs()[slot] is Unresolved implies {
            &&& 0 <= next[k].refs()[slot].index() < next.len()
            &&& !next[next[k].refs()[slot].index()].is_resolved()
        } by {
            let target = next[k].refs()[slot].index();
            if k < index {
                assert(0 <= target < current.len() && !current[target].is_resolved()) by {
                    reveal(blocked_below);
                }
            }
            assert(before[target].is_resolved() == next[target].is_resolved()) by {
                reveal(same_progress);
            }
        }
        reveal(blocked_below);
    }
}

/// A scan that has not left more entries fully linked than it found has
/// left every raw reference blocked.
proof fn lemma_scan_end<T>(
    before: Seq<ConstantPoolEntry<T>>,
    after: Seq<ConstantPoolEntry<T>>,
)
    requires
        advanced(before, after),
        same_progress(before, after) ==> blocked_below(after, after.len() as int),
    ensures
        count_resolved(before) <= count_resolved(after) <= after.len(),
        count_resolved(before) == count_resolved(after) ==> blocked_below(
            after,
            after.len() as int,
        ),
{
    lemma_count_compare(before, after, before.len());
    reveal(same_progress);
}

/// Where every raw reference is blocked and some entry is not fully
/// linked, that entry can never be.
proof fn lemma_stalled<T>(origin: Seq<ConstantPoolEntry<T>>, current: Seq<ConstantPoolEntry<T>>)
    requires
        advanced(origin, current),
        blocked_below(current, current.len() as int),
        count_resolved(current) < current.len(),
    ensures
        !resolvable(origin),
{
    lemma_count_full(current, current.len());
    let stuck = choose|index: int|
        0 <= index < current.len() && !(#[trigger] current[index].is_resolved());
    if settles(origin, stuck) {
        let depth = choose|depth: nat| settled_within(origin, stuck, depth);
        lemma_blocked_never_links(origin, current, stuck, depth);
    }
}

/// Where every entry is fully linked, every entry could be, and the pool
/// is the one that linking started from with every reference linked.
proof fn lemma_finished<T>(origin: Seq<ConstantPoolEntry<T>>, current: Seq<ConstantPoolEntry<T>>)
    requires
        advanced(origin, current),
        sound(origin, current),
        count_resolved(current) == current.len(),
    ensures
        resolvable(origin),
        current == resolved_form(origin),
{
    lemma_count_full(current, current.len());
    assert forall|index: int| 0 <= index < origin.len() implies settles(origin, index) by {
        lemma_linked_entry_settles(origin, current, index);
    }
    lemma_fully_linked_form(origin, current);
}

/// Before the first scan the pool has no link of its own making.
proof fn lemma_sound_at_start<T>(origin: Seq<ConstantPoolEntry<T>>)
    ensures
        sound(origin, origin),
{
    reveal(sound);
}

impl ConstantPoolRef {
    /// Tries to link this reference of the entry at `my_index`.
    ///
    /// A raw reference at fault is reported. Otherwise the reference is
    /// linked if the entry it points to is fully linked, and the result
    /// says whether the reference is linked now.
    pub fn resolve<T>(&mut self, my_index: usize, pool: &[ConstantPoolEntry<T>]) -> (linked: Result<
        bool,
        PoolError,
    >)
        ensures
            match ref_fault(my_index as int, pool@.len() as int, *old(self)) {
                Some(fault) => linked == Err::<bool, PoolError>(fault) && *final(self) == *old(
                    self,
                ),
                None => linked == Ok::<bool, PoolError>(*final(self) is Resolved) && *final(self)
                    == ref_step(*old(self), pool@),
            },
    {
        match *self {
            ConstantPoolRef::Unresolved(ix) => {
                let target: usize = ix as usize;
                if target == my_index {
                    return Err(PoolError::SelfReference { index: my_index });
                }
                if target >= pool.len() {
                    return Err(PoolError::OutOfBoundsReference { index: my_index, target });
                }
                if !pool[target].is_resolved() {
                    return Ok(false);
                }
                *self = ConstantPoolRef::Resolved(ix);
                Ok(true)
            },
            ConstantPoolRef::Resolved(_) => Ok(true),
        }
    }
}

impl<T> ConstantPoolEntry<T> {
    /// Tries to link each reference of the entry at `my_index` of `pool`.
    ///
    /// The first reference at fault is reported, and the pool stays as it
    /// was. Otherwise each raw reference whose target is fully linked is
    /// linked, and the result says whether the entry is fully linked now.
    /// No other entry changes.
    pub fn resolve(pool: &mut Vec<ConstantPoolEntry<T>>, my_index: usize) -> (linked: Result<
        bool,
        PoolError,
    >)
        requires
            my_index < old(pool)@.len(),
        ensures
            final(pool)@.len() == old(pool)@.len(),
            match entry_fault(old(pool)@, my_index as int) {
                Some(fault) => linked == Err::<bool, PoolError>(fault) && final(pool)@ == old(
                    pool,
                )@,
                None => linked == Ok::<bool, PoolError>(final(pool)@[my_index as int].is_resolved())
                    && final(pool)@ == old(pool)@.update(
                    my_index as int,
                    entry_step(old(pool)@, my_index as int),
                ),
            },
    {
        match &pool[my_index] {
            ConstantPoolEntry::ClassInfo(x) => {
                let mut x = *x;
                let done = x.resolve(my_index, pool.as_slice())?;
                pool[my_index] = ConstantPoolEntry::ClassInfo(x);
                Ok(done)
            },
            ConstantPoolEntry::String(x) => {
                let mut x = *x;
                let done = x.resolve(my_index, pool.as_slice())?;
                pool[my_index] = ConstantPoolEntry::String(x);
                Ok(done)
            },
            ConstantPoolEntry::FieldRef(x, y) => {
                let (mut x, mut y) = (*x, *y);
                let first = x.resolve(my_index, pool.as_slice())?;
                let second = y.resolve(my_index, pool.as_slice())?;
                pool[my_index] = ConstantPoolEntry::FieldRef(x, y);
                Ok(first && second)
            },
            ConstantPoolEntry::MethodRef(x, y) => {
                let (mut x, mut y) = (*x, *y);
                let first = x.resolve(my_index, pool.as_slice())?;
                let second = y.resolve(my_index, pool.as_slice())?;
                pool[my_index] = ConstantPoolEntry::MethodRef(x, y);
                Ok(first && second)
            },
            ConstantPoolEntry::InterfaceMethodRef(x, y) => {
                let (mut x, mut y) = (*x, *y);
                let first = x.resolve(my_index, pool.as_slice())?;
                let second = y.resolve(my_index, pool.as_slice())?;
                pool[my_index] = ConstantPoolEntry::InterfaceMethodRef(x, y);
                Ok(first && second)
            },
            ConstantPoolEntry::NameAndType(x, y) => {
                let (mut x, mut y) = (*x, *y);
                let first = x.resolve(my_index, pool.as_slice())?;
                let second = y.resolve(my_index, pool.as_slice())?;
                pool[my_index] = ConstantPoolEntry::NameAndType(x, y);
                Ok(first && second)
            },
            ConstantPoolEntry::MethodHandle(mode, y) => {
                let (mode, mut y) = (*mode, *y);
                let done = y.resolve(my_index, pool.as_slice())?;
                pool[my_index] = ConstantPoolEntry::MethodHandle(mode, y);
                Ok(done)
            },
            ConstantPoolEntry::MethodType(x) => {
                let mut x = *x;
                let done = x.resolve(my_index, pool.as_slice())?;
                pool[my_index] = ConstantPoolEntry::MethodType(x);
                Ok(done)
            },
            ConstantPoolEntry::InvokeDynamic(bootstrap, y) => {
                let (bootstrap, mut y) = (*bootstrap, *y);
                let done = y.resolve(my_index, pool.as_slice())?;
                pool[my_index] = ConstantPoolEntry::InvokeDynamic(bootstrap, y);
                Ok(done)
            },
            _ => {
                Ok(true)
            },
        }
    }
}

/// One scan over the pool: tries to link every reference of every entry,
/// in the order of the entries, and counts the entries that are fully
/// linked afterwards.
fn resolve_pass<T>(
    pool: &mut Vec<ConstantPoolEntry<T>>,
    Ghost(origin): Ghost<Seq<ConstantPoolEntry<T>>>,
) -> (scanned: Result<usize, PoolError>)
    requires
        advanced(origin, old(pool)@),
        sound(origin, old(pool)@),
    ensures
        advanced(old(pool)@, final(pool)@),
        advanced(origin, final(pool)@),
        match scanned {
            Err(fault) => first_fault(old(pool)@) == Some(fault),
            Ok(count) => {
                &&& first_fault(old(pool)@) is None
                &&& first_fault(final(pool)@) is None
                &&& sound(origin, final(pool)@)
                &&& count == count_resolved(final(pool)@)
                &&& count_resolved(old(pool)@) <= count <= final(pool)@.len()
                &&& count == count_resolved(old(pool)@) ==> blocked_below(
                    final(pool)@,
                    final(pool)@.len() as int,
                )
            },
        },
{
    let ghost before = pool@;
    let mut count: usize = 0;
    let mut i: usize = 0;
    proof {
        reveal(faultless_below);
        reveal(blocked_below);
    }
    while i < pool.len()
        invariant
            before == old(pool)@,
            i <= pool.len(),
            pool.len() == before.len(),
            advanced(before, pool@),
            advanced(origin, pool@),
            sound(origin, pool@),
            forall|index: int| i <= index < pool.len() ==> pool@[index] == before[index],
            first_fault_below(before, i as nat) is None,
            faultless_below(pool@, i as int),
            count == count_resolved_below(pool@, i as nat),
            count <= i,
            same_progress(before, pool@) ==> blocked_below(pool@, i as int),
        decreases pool.len() - i,
    {
        let ghost current = pool@;
        match ConstantPoolEntry::resolve(pool, i) {
            Err(fault) => {
                proof {
                    lemma_first_fault_sticks(before, (i + 1) as nat, before.len());
                }
                return Err(fault);
            },
            Ok(done) => {
                proof {
                    lemma_step_advanced(origin, current, pool@, i as int);
                    lemma_step_sound(origin, current, pool@, i as int);
                    lemma_step_faultless(current, pool@, i as int);
                    lemma_step_blocked(before, current, pool@, i as int);
                    lemma_count_frame(current, pool@, i as nat);
                }
                if done {
                    count += 1;
                }
            },
        }
        i += 1;
    }
    proof {
        lemma_no_fault_below(pool@, pool@.len());
        lemma_scan_end(before, pool@);
    }
    Ok(count)
}

/// Links every reference of the pool, or reports why that cannot be done.
///
/// The pool is scanned until a scan leaves every entry fully linked, or
/// leaves no more entries fully linked than the scan before it. A raw
/// reference that points to its own entry or past the end of the pool is
/// reported by the first scan, the first such reference in the order of
/// the entries. Whatever the outcome, entries only gain links.
pub fn resolve_constant_pool<T>(pool: &mut Vec<ConstantPoolEntry<T>>) -> (outcome: Result<
    (),
    PoolError,
>)
    ensures
        advanced(old(pool)@, final(pool)@),
        match outcome {
            Ok(()) => resolution_error(old(pool)@) is None && final(pool)@ == resolved_form(
                old(pool)@,
            ),
            Err(error) => resolution_error(old(pool)@) == Some(error),
        },
{
    let ghost origin = pool@;
    let mut resolved_count: usize = 0;
    proof {
        lemma_sound_at_start(origin);
    }
    while resolved_count < pool.len()
        invariant
            origin == old(pool)@,
            pool.len() == origin.len(),
            advanced(origin, pool@),
            sound(origin, pool@),
            resolved_count <= pool.len(),
            resolved_count == 0 ==> pool@ == origin,
            resolved_count > 0 ==> {
                &&& resolved_count == count_resolved(pool@)
                &&& first_fault(origin) is None
                &&& first_fault(pool@) is None
            },
        decreases pool.len() - resolved_count,
    {
        let count = resolve_pass(pool, Ghost(origin))?;
        if count == resolved_count {
            proof {
                lemma_stalled(origin, pool@);
            }
            return Err(PoolError::Unresolvable);
        }
        resolved_count = count;
    }
    proof {
        if pool.len() > 0 {
            lemma_finished(origin, pool@);
        }
    }
    Ok(())
}

} // verus!
