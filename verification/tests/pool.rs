use constant_pool::{
    read_constant_pool, read_cp_ref, ConstantPoolEntry, ConstantPoolEntryTypes, ConstantPoolRef,
    EntryKind, Field, PoolError, ReferenceKind,
};
use std::borrow::Cow;

type Entry = ConstantPoolEntry<Cow<'static, str>>;

fn text(s: &'static str) -> Entry {
    ConstantPoolEntry::Utf8(Cow::Borrowed(s))
}

fn to(index: u16) -> ConstantPoolRef {
    ConstantPoolRef::Resolved(index)
}

fn utf8(bytes: &mut Vec<u8>, s: &str) {
    bytes.push(1);
    bytes.extend_from_slice(&(s.len() as u16).to_be_bytes());
    bytes.extend_from_slice(s.as_bytes());
}

fn one(bytes: &mut Vec<u8>, tag: u8, index: u16) {
    bytes.push(tag);
    bytes.extend_from_slice(&index.to_be_bytes());
}

fn two(bytes: &mut Vec<u8>, tag: u8, first: u16, second: u16) {
    bytes.push(tag);
    bytes.extend_from_slice(&first.to_be_bytes());
    bytes.extend_from_slice(&second.to_be_bytes());
}

fn handle(bytes: &mut Vec<u8>, code: u8, index: u16) {
    bytes.push(15);
    bytes.push(code);
    bytes.extend_from_slice(&index.to_be_bytes());
}

#[test]
fn pool_of_a_small_class() {
    let mut bytes: Vec<u8> = vec![0xca, 0xfe, 0xba, 0xbe];
    two(&mut bytes, 10, 2, 3); // 1
    one(&mut bytes, 7, 4); // 2
    two(&mut bytes, 12, 5, 6); // 3
    utf8(&mut bytes, "java/lang/Object"); // 4
    utf8(&mut bytes, "<init>"); // 5
    utf8(&mut bytes, "()V"); // 6
    one(&mut bytes, 8, 8); // 7
    utf8(&mut bytes, "Hello"); // 8
    bytes.extend_from_slice(&[3, 0xff, 0xff, 0xff, 0xd6]); // 9
    bytes.extend_from_slice(&[5, 0, 0, 0, 1, 0, 0, 0, 0]); // 10 and 11
    one(&mut bytes, 16, 6); // 12
    let end = bytes.len();
    bytes.extend_from_slice(&[0, 33]);

    let mut ix = 4;
    let pool = read_constant_pool(&bytes, &mut ix, 13, 52).unwrap();
    assert_eq!(ix, end);
    let expected: Vec<ConstantPoolEntry<Cow<str>>> = vec![
        ConstantPoolEntry::Zero,
        ConstantPoolEntry::MethodRef(to(2), to(3)),
        ConstantPoolEntry::ClassInfo(to(4)),
        ConstantPoolEntry::NameAndType(to(5), to(6)),
        ConstantPoolEntry::Utf8(Cow::Borrowed("java/lang/Object")),
        ConstantPoolEntry::Utf8(Cow::Borrowed("<init>")),
        ConstantPoolEntry::Utf8(Cow::Borrowed("()V")),
        ConstantPoolEntry::String(to(8)),
        ConstantPoolEntry::Utf8(Cow::Borrowed("Hello")),
        ConstantPoolEntry::Integer(-42),
        ConstantPoolEntry::Long(1 << 32),
        ConstantPoolEntry::Unused,
        ConstantPoolEntry::MethodType(to(6)),
    ];
    assert_eq!(pool, expected);
    assert_eq!(pool[2].classinfo_utf8(&pool), "java/lang/Object");
    assert_eq!(pool[8].utf8(), "Hello");
}

#[test]
fn pool_of_one_slot_reads_nothing() {
    let bytes = [9u8, 9, 9];
    let mut ix = 1;
    assert_eq!(read_constant_pool(&bytes, &mut ix, 1, 52), Ok(vec![ConstantPoolEntry::Zero]));
    assert_eq!(ix, 1);
}

#[test]
fn failure_of_decoding_is_reported() {
    let mut bytes: Vec<u8> = Vec::new();
    one(&mut bytes, 7, 2);
    bytes.extend_from_slice(&[1, 0, 9, b'a']);
    let mut ix = 0;
    assert_eq!(
        read_constant_pool(&bytes, &mut ix, 3, 52),
        Err(PoolError::UnexpectedEnd { reading: Field::Utf8, offset: 6 })
    );
    let bytes = [7u8, 0, 1, 13, 0, 0];
    let mut ix = 0;
    assert_eq!(
        read_constant_pool(&bytes, &mut ix, 3, 52),
        Err(PoolError::UnknownTag { tag: 13, offset: 3 })
    );
}

#[test]
fn failure_of_decoding_comes_before_a_fault() {
    let bytes = [7u8, 0, 1, 7, 0];
    let mut ix = 0;
    assert_eq!(
        read_constant_pool(&bytes, &mut ix, 3, 52),
        Err(PoolError::UnexpectedEnd { reading: Field::U2, offset: 4 })
    );
}

#[test]
fn failure_of_linking_is_reported() {
    let mut bytes: Vec<u8> = Vec::new();
    utf8(&mut bytes, "a");
    one(&mut bytes, 7, 2);
    let mut ix = 0;
    assert_eq!(
        read_constant_pool(&bytes, &mut ix, 3, 52),
        Err(PoolError::SelfReference { index: 2 })
    );

    let mut bytes: Vec<u8> = Vec::new();
    utf8(&mut bytes, "a");
    one(&mut bytes, 7, 3);
    let mut ix = 0;
    assert_eq!(
        read_constant_pool(&bytes, &mut ix, 3, 52),
        Err(PoolError::OutOfBoundsReference { index: 2, target: 3 })
    );

    let mut bytes: Vec<u8> = Vec::new();
    two(&mut bytes, 12, 2, 2);
    two(&mut bytes, 12, 1, 1);
    let mut ix = 0;
    assert_eq!(read_constant_pool(&bytes, &mut ix, 3, 52), Err(PoolError::Unresolvable));
}

#[test]
fn failure_of_linking_comes_before_a_wrong_kind() {
    let mut bytes: Vec<u8> = Vec::new();
    bytes.extend_from_slice(&[4, 0, 0, 0, 0]);
    one(&mut bytes, 7, 1);
    one(&mut bytes, 8, 3);
    let mut ix = 0;
    assert_eq!(
        read_constant_pool(&bytes, &mut ix, 4, 52),
        Err(PoolError::SelfReference { index: 3 })
    );
}

#[test]
fn wrong_kind_is_reported_with_the_entry() {
    let mut bytes: Vec<u8> = Vec::new();
    bytes.extend_from_slice(&[4, 0x40, 0x49, 0x0f, 0xdb]);
    one(&mut bytes, 7, 1);
    let mut ix = 0;
    let failure = read_constant_pool(&bytes, &mut ix, 3, 52).unwrap_err();
    assert_eq!(failure, PoolError::TypeMismatch { index: 2 });
    assert_eq!(
        failure.message(),
        "Unexpected constant pool reference type for constant pool entry 2"
    );
}

#[test]
fn reference_to_the_second_slot_of_a_long_is_a_wrong_kind() {
    let mut bytes: Vec<u8> = Vec::new();
    bytes.extend_from_slice(&[5, 0, 0, 0, 0, 0, 0, 0, 1]);
    one(&mut bytes, 8, 2);
    let mut ix = 0;
    assert_eq!(
        read_constant_pool(&bytes, &mut ix, 4, 52),
        Err(PoolError::TypeMismatch { index: 3 })
    );
}

#[test]
fn static_handle_of_an_interface_method_by_version() {
    let mut bytes: Vec<u8> = Vec::new();
    handle(&mut bytes, 6, 2); // 1
    two(&mut bytes, 11, 3, 4); // 2
    one(&mut bytes, 7, 5); // 3
    two(&mut bytes, 12, 5, 5); // 4
    utf8(&mut bytes, "x"); // 5
    let mut ix = 0;
    let pool = read_constant_pool(&bytes, &mut ix, 6, 52).unwrap();
    assert_eq!(pool[1], ConstantPoolEntry::MethodHandle(ReferenceKind::InvokeStatic, to(2)));
    assert_eq!(ix, bytes.len());
    let mut ix = 0;
    assert_eq!(
        read_constant_pool(&bytes, &mut ix, 6, 51),
        Err(PoolError::TypeMismatch { index: 1 })
    );
}

#[test]
fn text_is_decoded_on_the_way() {
    let bytes = [1u8, 0, 8, b'a', 0xc0, 0x80, 0xed, 0xa0, 0x81, 0xed, 0xb0];
    let mut ix = 0;
    assert_eq!(
        read_constant_pool(&bytes, &mut ix, 2, 52),
        Err(PoolError::MalformedUtf8 { start: 3, end: 11 })
    );
    let bytes = [1u8, 0, 9, b'a', 0xc0, 0x80, 0xed, 0xa0, 0x81, 0xed, 0xb0, 0x81];
    let mut ix = 0;
    let pool = read_constant_pool(&bytes, &mut ix, 2, 52).unwrap();
    assert_eq!(pool[1].utf8(), "a\0\u{10401}");
}

#[test]
fn index_zero_is_allowed_where_the_set_holds_it() {
    let pool: Vec<Entry> = vec![ConstantPoolEntry::Zero, text("a"), ConstantPoolEntry::ClassInfo(to(1))];
    let bytes = [0u8, 0, 0, 2];
    let mut ix = 0;
    assert_eq!(
        read_cp_ref(&bytes, &mut ix, &pool, ConstantPoolEntryTypes::class_or_zero()),
        Ok(&ConstantPoolEntry::Zero)
    );
    assert_eq!(ix, 2);
    assert_eq!(
        read_cp_ref(&bytes, &mut ix, &pool, ConstantPoolEntryTypes::class_or_zero()),
        Ok(&pool[2])
    );
    assert_eq!(ix, 4);
    let mut ix = 0;
    assert_eq!(
        read_cp_ref(&bytes, &mut ix, &pool, ConstantPoolEntryTypes::utf8_or_zero()),
        Ok(&ConstantPoolEntry::Zero)
    );
    let mut ix = 0;
    assert_eq!(
        read_cp_ref(&bytes, &mut ix, &pool, ConstantPoolEntryTypes::name_and_type_or_zero()),
        Ok(&ConstantPoolEntry::Zero)
    );
}

#[test]
fn index_zero_is_refused_where_the_set_lacks_it() {
    let pool: Vec<Entry> = vec![ConstantPoolEntry::Zero, text("a")];
    let bytes = [0u8, 0];
    let mut ix = 0;
    assert_eq!(
        read_cp_ref(&bytes, &mut ix, &pool, ConstantPoolEntryTypes::of(EntryKind::ClassInfo)),
        Err(PoolError::UnexpectedType)
    );
}

#[test]
fn index_past_the_pool_is_out_of_bounds() {
    let pool: Vec<Entry> = vec![ConstantPoolEntry::Zero, text("a")];
    let bytes = [0u8, 2, 0xff, 0xff];
    let mut ix = 0;
    let failure =
        read_cp_ref(&bytes, &mut ix, &pool, ConstantPoolEntryTypes::utf8_or_zero()).unwrap_err();
    assert_eq!(failure, PoolError::IndexOutOfBounds { index: 2 });
    assert_eq!(failure.message(), "Out-of-bounds index 2 in constant pool reference for");
    let mut ix = 2;
    assert_eq!(
        read_cp_ref(&bytes, &mut ix, &pool, ConstantPoolEntryTypes::utf8_or_zero()),
        Err(PoolError::IndexOutOfBounds { index: 65535 })
    );
}

#[test]
fn index_of_a_wrong_kind_is_refused() {
    let pool: Vec<Entry> = vec![ConstantPoolEntry::Zero, text("a"), ConstantPoolEntry::Integer(3)];
    let bytes = [0u8, 1, 0, 2];
    let mut ix = 0;
    assert_eq!(
        read_cp_ref(&bytes, &mut ix, &pool, ConstantPoolEntryTypes::constants()),
        Err(PoolError::UnexpectedType)
    );
    let mut ix = 2;
    assert_eq!(
        read_cp_ref(&bytes, &mut ix, &pool, ConstantPoolEntryTypes::constants()),
        Ok(&pool[2])
    );
    assert_eq!(ix, 4);
}

#[test]
fn index_that_is_cut_short() {
    let pool: Vec<Entry> = vec![ConstantPoolEntry::Zero];
    let bytes = [0u8];
    let mut ix = 0;
    assert_eq!(
        read_cp_ref(&bytes, &mut ix, &pool, ConstantPoolEntryTypes::class_or_zero()),
        Err(PoolError::UnexpectedEnd { reading: Field::U2, offset: 0 })
    );
}

#[test]
fn text_of_an_entry_is_owned_or_borrowed_as_it_was() {
    let borrowed: Entry = ConstantPoolEntry::Utf8(Cow::Borrowed("abc"));
    let owned: Entry = ConstantPoolEntry::Utf8(Cow::Owned(String::from("abc")));
    assert!(matches!(borrowed.utf8(), Cow::Borrowed("abc")));
    assert!(matches!(owned.utf8(), Cow::Owned(_)));
    assert_eq!(owned.utf8(), "abc");
}

#[test]
fn name_of_a_class_through_its_link() {
    let pool: Vec<Entry> = vec![
        ConstantPoolEntry::Zero,
        ConstantPoolEntry::ClassInfo(to(3)),
        text("other"),
        text("java/lang/String"),
    ];
    assert_eq!(pool[1].classinfo_utf8(&pool), "java/lang/String");
}
