use constant_pool::{
    resolve_constant_pool, BootstrapMethodRef, ConstantPoolEntry, ConstantPoolRef, PoolError,
    ReferenceKind,
};
use std::borrow::Cow;

type Entry = ConstantPoolEntry<Cow<'static, str>>;

fn text(s: &'static str) -> Entry {
    ConstantPoolEntry::Utf8(Cow::Borrowed(s))
}

fn raw(index: u16) -> ConstantPoolRef {
    ConstantPoolRef::Unresolved(index)
}

fn linked(index: u16) -> ConstantPoolRef {
    ConstantPoolRef::Resolved(index)
}

fn class(index: u16) -> Entry {
    ConstantPoolEntry::ClassInfo(raw(index))
}

fn name_and_type(name: u16, descriptor: u16) -> Entry {
    ConstantPoolEntry::NameAndType(raw(name), raw(descriptor))
}

#[test]
fn reference_to_itself_is_a_fault() {
    let pool: Vec<Entry> = vec![ConstantPoolEntry::Zero, class(1)];
    let mut r = raw(1);
    assert_eq!(r.resolve(1, &pool), Err(PoolError::SelfReference { index: 1 }));
    assert_eq!(r, raw(1));
}

#[test]
fn reference_past_the_end_is_a_fault() {
    let pool: Vec<Entry> = vec![ConstantPoolEntry::Zero, class(2)];
    let mut r = raw(2);
    assert_eq!(r.resolve(1, &pool), Err(PoolError::OutOfBoundsReference { index: 1, target: 2 }));
    assert_eq!(r, raw(2));
}

#[test]
fn reference_to_a_linked_entry_is_linked() {
    let pool: Vec<Entry> = vec![ConstantPoolEntry::Zero, class(2), text("a")];
    let mut r = raw(2);
    assert_eq!(r.resolve(1, &pool), Ok(true));
    assert_eq!(r, linked(2));
    assert!(r.is_resolved());
}

#[test]
fn reference_to_an_entry_that_is_not_linked_waits() {
    let pool: Vec<Entry> = vec![
        ConstantPoolEntry::Zero,
        ConstantPoolEntry::String(raw(2)),
        class(3),
        text("a"),
    ];
    let mut r = raw(2);
    assert_eq!(r.resolve(1, &pool), Ok(false));
    assert_eq!(r, raw(2));
    assert!(!r.is_resolved());
}

#[test]
fn linked_reference_stays_as_it_is() {
    let pool: Vec<Entry> = vec![ConstantPoolEntry::Zero];
    let mut r = linked(7);
    assert_eq!(r.resolve(7, &pool), Ok(true));
    assert_eq!(r, linked(7));
}

#[test]
fn entry_step_links_what_it_can() {
    let mut pool: Vec<Entry> = vec![
        ConstantPoolEntry::Zero,
        ConstantPoolEntry::FieldRef(raw(2), raw(3)),
        class(4),
        text("b"),
        text("a"),
    ];
    assert_eq!(ConstantPoolEntry::resolve(&mut pool, 1), Ok(false));
    assert_eq!(pool[1], ConstantPoolEntry::FieldRef(raw(2), linked(3)));
    assert_eq!(ConstantPoolEntry::resolve(&mut pool, 2), Ok(true));
    assert_eq!(pool[2], ConstantPoolEntry::ClassInfo(linked(4)));
    assert_eq!(ConstantPoolEntry::resolve(&mut pool, 1), Ok(true));
    assert_eq!(pool[1], ConstantPoolEntry::FieldRef(linked(2), linked(3)));
    assert_eq!(ConstantPoolEntry::resolve(&mut pool, 0), Ok(true));
    assert_eq!(ConstantPoolEntry::resolve(&mut pool, 3), Ok(true));
    assert_eq!(pool[3], text("b"));
}

#[test]
fn entry_step_reports_the_first_fault_and_changes_nothing() {
    let mut pool: Vec<Entry> = vec![
        ConstantPoolEntry::Zero,
        ConstantPoolEntry::MethodRef(raw(2), raw(1)),
        text("a"),
    ];
    let before = pool.clone();
    assert_eq!(ConstantPoolEntry::resolve(&mut pool, 1), Err(PoolError::SelfReference { index: 1 }));
    assert_eq!(pool, before);
}

#[test]
fn empty_pool_resolves() {
    let mut pool: Vec<Entry> = Vec::new();
    assert_eq!(resolve_constant_pool(&mut pool), Ok(()));
    assert!(pool.is_empty());
}

#[test]
fn pool_without_references_resolves() {
    let mut pool: Vec<Entry> = vec![
        ConstantPoolEntry::Zero,
        text("a"),
        ConstantPoolEntry::Integer(1),
        ConstantPoolEntry::Float(2),
        ConstantPoolEntry::Long(3),
        ConstantPoolEntry::Unused,
        ConstantPoolEntry::Double(4),
        ConstantPoolEntry::Unused,
    ];
    let before = pool.clone();
    assert_eq!(resolve_constant_pool(&mut pool), Ok(()));
    assert_eq!(pool, before);
}

#[test]
fn backward_and_forward_references_resolve() {
    let mut pool: Vec<Entry> = vec![
        ConstantPoolEntry::Zero,
        text("java/lang/Object"),
        class(1),
        ConstantPoolEntry::MethodRef(raw(2), raw(4)),
        name_and_type(5, 6),
        text("<init>"),
        text("()V"),
    ];
    assert_eq!(resolve_constant_pool(&mut pool), Ok(()));
    assert_eq!(
        pool,
        vec![
            ConstantPoolEntry::Zero,
            text("java/lang/Object"),
            ConstantPoolEntry::ClassInfo(linked(1)),
            ConstantPoolEntry::MethodRef(linked(2), linked(4)),
            ConstantPoolEntry::NameAndType(linked(5), linked(6)),
            text("<init>"),
            text("()V"),
        ]
    );
}

#[test]
fn every_kind_of_reference_is_linked() {
    let mut pool: Vec<Entry> = vec![
        ConstantPoolEntry::Zero,
        class(10),
        ConstantPoolEntry::String(raw(10)),
        ConstantPoolEntry::FieldRef(raw(1), raw(6)),
        ConstantPoolEntry::MethodRef(raw(1), raw(6)),
        ConstantPoolEntry::InterfaceMethodRef(raw(1), raw(6)),
        name_and_type(10, 10),
        ConstantPoolEntry::MethodHandle(ReferenceKind::GetField, raw(3)),
        ConstantPoolEntry::MethodType(raw(10)),
        ConstantPoolEntry::InvokeDynamic(BootstrapMethodRef::Unresolved(5), raw(6)),
        text("x"),
    ];
    assert_eq!(resolve_constant_pool(&mut pool), Ok(()));
    assert_eq!(
        pool,
        vec![
            ConstantPoolEntry::Zero,
            ConstantPoolEntry::ClassInfo(linked(10)),
            ConstantPoolEntry::String(linked(10)),
            ConstantPoolEntry::FieldRef(linked(1), linked(6)),
            ConstantPoolEntry::MethodRef(linked(1), linked(6)),
            ConstantPoolEntry::InterfaceMethodRef(linked(1), linked(6)),
            ConstantPoolEntry::NameAndType(linked(10), linked(10)),
            ConstantPoolEntry::MethodHandle(ReferenceKind::GetField, linked(3)),
            ConstantPoolEntry::MethodType(linked(10)),
            ConstantPoolEntry::InvokeDynamic(BootstrapMethodRef::Unresolved(5), linked(6)),
            text("x"),
        ]
    );
    for entry in &pool {
        assert!(entry.is_resolved());
    }
}

#[test]
fn long_forward_chain_takes_several_scans_and_resolves() {
    let mut pool: Vec<Entry> = vec![ConstantPoolEntry::Zero];
    for index in 1..200u16 {
        pool.push(ConstantPoolEntry::String(raw(index + 1)));
    }
    pool.push(text("end"));
    assert_eq!(resolve_constant_pool(&mut pool), Ok(()));
    for index in 1..200u16 {
        assert_eq!(pool[index as usize], ConstantPoolEntry::String(linked(index + 1)));
    }
}

#[test]
fn reference_to_the_reserved_entry_resolves() {
    let mut pool: Vec<Entry> = vec![ConstantPoolEntry::Zero, class(0)];
    assert_eq!(resolve_constant_pool(&mut pool), Ok(()));
    assert_eq!(pool[1], ConstantPoolEntry::ClassInfo(linked(0)));
}

#[test]
fn self_reference_in_the_first_place() {
    let mut pool: Vec<Entry> = vec![ConstantPoolEntry::Zero, text("a"), name_and_type(2, 1)];
    assert_eq!(resolve_constant_pool(&mut pool), Err(PoolError::SelfReference { index: 2 }));
}

#[test]
fn self_reference_in_the_second_place() {
    let mut pool: Vec<Entry> = vec![ConstantPoolEntry::Zero, text("a"), name_and_type(1, 2)];
    assert_eq!(resolve_constant_pool(&mut pool), Err(PoolError::SelfReference { index: 2 }));
}

#[test]
fn self_reference_behind_a_reference_that_has_to_wait() {
    let mut pool: Vec<Entry> = vec![
        ConstantPoolEntry::Zero,
        ConstantPoolEntry::FieldRef(raw(2), raw(1)),
        class(3),
        text("a"),
    ];
    assert_eq!(resolve_constant_pool(&mut pool), Err(PoolError::SelfReference { index: 1 }));
}

#[test]
fn self_reference_behind_a_reference_into_a_cycle() {
    let mut pool: Vec<Entry> = vec![
        ConstantPoolEntry::Zero,
        ConstantPoolEntry::FieldRef(raw(2), raw(1)),
        class(3),
        class(2),
    ];
    assert_eq!(resolve_constant_pool(&mut pool), Err(PoolError::SelfReference { index: 1 }));
}

#[test]
fn self_reference_of_each_kind_of_entry() {
    let entries: Vec<Entry> = vec![
        class(1),
        ConstantPoolEntry::String(raw(1)),
        ConstantPoolEntry::FieldRef(raw(1), raw(0)),
        ConstantPoolEntry::MethodRef(raw(0), raw(1)),
        ConstantPoolEntry::InterfaceMethodRef(raw(1), raw(1)),
        name_and_type(0, 1),
        ConstantPoolEntry::MethodHandle(ReferenceKind::InvokeStatic, raw(1)),
        ConstantPoolEntry::MethodType(raw(1)),
        ConstantPoolEntry::InvokeDynamic(BootstrapMethodRef::Unresolved(1), raw(1)),
    ];
    for entry in entries {
        let mut pool: Vec<Entry> = vec![ConstantPoolEntry::Zero, entry];
        assert_eq!(resolve_constant_pool(&mut pool), Err(PoolError::SelfReference { index: 1 }));
    }
}

#[test]
fn out_of_bounds_before_a_self_reference_wins() {
    let mut pool: Vec<Entry> = vec![
        ConstantPoolEntry::Zero,
        ConstantPoolEntry::FieldRef(raw(9), raw(1)),
    ];
    assert_eq!(
        resolve_constant_pool(&mut pool),
        Err(PoolError::OutOfBoundsReference { index: 1, target: 9 })
    );
    let mut pool: Vec<Entry> = vec![ConstantPoolEntry::Zero, class(5), class(2)];
    assert_eq!(
        resolve_constant_pool(&mut pool),
        Err(PoolError::OutOfBoundsReference { index: 1, target: 5 })
    );
}

#[test]
fn self_reference_before_an_out_of_bounds_wins() {
    let mut pool: Vec<Entry> = vec![
        ConstantPoolEntry::Zero,
        ConstantPoolEntry::FieldRef(raw(1), raw(9)),
    ];
    assert_eq!(resolve_constant_pool(&mut pool), Err(PoolError::SelfReference { index: 1 }));
    let mut pool: Vec<Entry> = vec![ConstantPoolEntry::Zero, class(1), class(7)];
    assert_eq!(resolve_constant_pool(&mut pool), Err(PoolError::SelfReference { index: 1 }));
}

#[test]
fn reference_to_the_length_of_the_pool_is_out_of_bounds() {
    let mut pool: Vec<Entry> = vec![ConstantPoolEntry::Zero, text("a"), class(3)];
    assert_eq!(
        resolve_constant_pool(&mut pool),
        Err(PoolError::OutOfBoundsReference { index: 2, target: 3 })
    );
}

#[test]
fn reference_to_the_largest_index_is_out_of_bounds() {
    let mut pool: Vec<Entry> = vec![
        ConstantPoolEntry::Zero,
        ConstantPoolEntry::MethodType(raw(65535)),
        text("a"),
    ];
    assert_eq!(
        resolve_constant_pool(&mut pool),
        Err(PoolError::OutOfBoundsReference { index: 1, target: 65535 })
    );
}

#[test]
fn out_of_bounds_in_the_second_place() {
    let mut pool: Vec<Entry> = vec![ConstantPoolEntry::Zero, name_and_type(2, 4), text("a")];
    assert_eq!(
        resolve_constant_pool(&mut pool),
        Err(PoolError::OutOfBoundsReference { index: 1, target: 4 })
    );
}

#[test]
fn out_of_bounds_is_found_behind_a_cycle() {
    let mut pool: Vec<Entry> = vec![ConstantPoolEntry::Zero, class(2), class(1), class(40)];
    assert_eq!(
        resolve_constant_pool(&mut pool),
        Err(PoolError::OutOfBoundsReference { index: 3, target: 40 })
    );
}

#[test]
fn out_of_bounds_behind_a_reference_that_has_to_wait() {
    let mut pool: Vec<Entry> = vec![
        ConstantPoolEntry::Zero,
        ConstantPoolEntry::FieldRef(raw(2), raw(8)),
        class(3),
        text("a"),
    ];
    assert_eq!(
        resolve_constant_pool(&mut pool),
        Err(PoolError::OutOfBoundsReference { index: 1, target: 8 })
    );
}

#[test]
fn two_entries_that_refer_to_each_other_are_unresolvable() {
    let mut pool: Vec<Entry> = vec![name_and_type(1, 1), name_and_type(0, 0)];
    assert_eq!(resolve_constant_pool(&mut pool), Err(PoolError::Unresolvable));
    let mut pool: Vec<Entry> =
        vec![ConstantPoolEntry::Zero, name_and_type(2, 3), name_and_type(1, 3), text("a")];
    assert_eq!(resolve_constant_pool(&mut pool), Err(PoolError::Unresolvable));
}

#[test]
fn cycle_of_three_is_unresolvable() {
    let mut pool: Vec<Entry> = vec![ConstantPoolEntry::Zero, class(2), class(3), class(1), text("a")];
    assert_eq!(resolve_constant_pool(&mut pool), Err(PoolError::Unresolvable));
}

#[test]
fn chain_into_a_cycle_is_unresolvable() {
    let mut pool: Vec<Entry> = vec![
        ConstantPoolEntry::Zero,
        text("a"),
        class(1),
        ConstantPoolEntry::String(raw(4)),
        class(5),
        class(4),
    ];
    assert_eq!(resolve_constant_pool(&mut pool), Err(PoolError::Unresolvable));
    assert_eq!(pool[2], ConstantPoolEntry::ClassInfo(linked(1)));
    assert_eq!(pool[1], text("a"));
}

#[test]
fn cycle_without_any_linked_entry_is_unresolvable() {
    let mut pool: Vec<Entry> = vec![class(1), class(0)];
    assert_eq!(resolve_constant_pool(&mut pool), Err(PoolError::Unresolvable));
}

#[test]
fn links_that_are_there_already_stay() {
    let mut pool: Vec<Entry> = vec![
        ConstantPoolEntry::Zero,
        ConstantPoolEntry::ClassInfo(linked(2)),
        text("a"),
        ConstantPoolEntry::FieldRef(linked(1), raw(4)),
        name_and_type(2, 2),
    ];
    assert_eq!(resolve_constant_pool(&mut pool), Ok(()));
    assert_eq!(pool[1], ConstantPoolEntry::ClassInfo(linked(2)));
    assert_eq!(pool[3], ConstantPoolEntry::FieldRef(linked(1), linked(4)));
    let before = pool.clone();
    assert_eq!(resolve_constant_pool(&mut pool), Ok(()));
    assert_eq!(pool, before);
}

#[test]
fn entry_is_resolved_when_all_its_references_are() {
    let half: Entry = ConstantPoolEntry::FieldRef(linked(1), raw(2));
    let other: Entry = ConstantPoolEntry::FieldRef(raw(1), linked(2));
    let full: Entry = ConstantPoolEntry::FieldRef(linked(1), linked(2));
    assert!(!half.is_resolved());
    assert!(!other.is_resolved());
    assert!(full.is_resolved());
    assert!(text("a").is_resolved());
    let zero: Entry = ConstantPoolEntry::Zero;
    let unused: Entry = ConstantPoolEntry::Unused;
    assert!(zero.is_resolved());
    assert!(unused.is_resolved());
    let handle: Entry = ConstantPoolEntry::MethodHandle(ReferenceKind::PutField, raw(1));
    assert!(!handle.is_resolved());
    let site: Entry = ConstantPoolEntry::InvokeDynamic(BootstrapMethodRef::Unresolved(0), linked(1));
    assert!(site.is_resolved());
}
