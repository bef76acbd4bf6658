use constant_pool::error::push_decimal;
use constant_pool::{Field, PoolError};

#[test]
fn decimal_of_small_and_large_numbers() {
    for (n, expected) in [
        (0usize, "0"),
        (7, "7"),
        (9, "9"),
        (10, "10"),
        (52, "52"),
        (100, "100"),
        (65535, "65535"),
        (1_000_000_007, "1000000007"),
    ] {
        let mut text = String::from("n=");
        push_decimal(&mut text, n);
        assert_eq!(text, format!("n={}", expected));
    }
}

#[test]
fn decimal_of_the_largest_number() {
    let mut text = String::new();
    push_decimal(&mut text, usize::MAX);
    assert_eq!(text, format!("{}", usize::MAX));
}

#[test]
fn message_of_unexpected_end() {
    let cases = [
        (Field::U1, "Unexpected end of stream reading u1 at index 3"),
        (Field::U2, "Unexpected end of stream reading u2 at index 3"),
        (Field::U4, "Unexpected end of stream reading u4 at index 3"),
        (Field::U8, "Unexpected end of stream reading u8 at index 3"),
        (Field::Utf8, "Unexpected end of stream reading CONSTANT_Utf8 at index 3"),
    ];
    for (reading, expected) in cases {
        assert_eq!(PoolError::UnexpectedEnd { reading, offset: 3 }.message(), expected);
    }
}

#[test]
fn message_of_malformed_text_ends_as_the_decoder_says() {
    let error = PoolError::MalformedUtf8 { start: 3, end: 8 };
    assert_eq!(
        error.message(),
        format!("Error reading CONSTANT_Utf8 at indices 3..8: {}", cesu8::Cesu8DecodingError)
    );
    assert_eq!(
        error.message(),
        "Error reading CONSTANT_Utf8 at indices 3..8: could not convert CESU-8 data to UTF-8"
    );
}

#[test]
fn message_of_unknown_tag() {
    assert_eq!(
        PoolError::UnknownTag { tag: 2, offset: 10 }.message(),
        "Unexpected constant pool entry type 2 at index 10"
    );
    assert_eq!(
        PoolError::UnknownTag { tag: 255, offset: 0 }.message(),
        "Unexpected constant pool entry type 255 at index 0"
    );
}

#[test]
fn message_of_unknown_reference_kind() {
    assert_eq!(
        PoolError::UnknownReferenceKind { code: 10, offset: 21 }.message(),
        "Unexpected reference kind 10 when reading CONSTANT_methodhandle at index 21"
    );
}

#[test]
fn message_of_self_reference() {
    assert_eq!(
        PoolError::SelfReference { index: 12 }.message(),
        "Constant pool entry at index 12 could not be resolved due to self-reference"
    );
}

#[test]
fn message_of_out_of_bounds_reference() {
    assert_eq!(
        PoolError::OutOfBoundsReference { index: 1, target: 65535 }.message(),
        "Constant pool entry at index 1 references out-of-bounds index 65535"
    );
}

#[test]
fn message_of_unresolvable() {
    assert_eq!(PoolError::Unresolvable.message(), "Unable to resolve all constant pool entries");
}

#[test]
fn message_of_unexpected_type() {
    assert_eq!(PoolError::UnexpectedType.message(), "Unexpected constant pool reference type for");
}

#[test]
fn message_of_index_out_of_bounds() {
    assert_eq!(
        PoolError::IndexOutOfBounds { index: 9 }.message(),
        "Out-of-bounds index 9 in constant pool reference for"
    );
}

#[test]
fn message_of_type_mismatch_names_the_entry() {
    assert_eq!(
        PoolError::TypeMismatch { index: 4 }.message(),
        "Unexpected constant pool reference type for constant pool entry 4"
    );
    assert_eq!(
        PoolError::TypeMismatch { index: 4 }.message(),
        format!("{} constant pool entry {}", PoolError::UnexpectedType.message(), 4)
    );
}
