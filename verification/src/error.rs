//! What can go wrong while a pool is decoded, linked and checked, and the
//! text that reports it.

use vstd::prelude::*;
use vstd::string::StringExecFns;

verus! {

/// The thing that was being read when the bytes ran out.
#[derive(Debug, Clone, Copy, PartialEq, Eq, Structural)]
pub enum Field {
    /// An unsigned integer of one byte.
    U1,
    /// An unsigned integer of two bytes.
    U2,
    /// An unsigned integer of four bytes.
    U4,
    /// An unsigned integer of eight bytes.
    U8,
    /// The bytes of a text entry.
    Utf8,
}

/// A failure of one of the three phases. Every failure is final: the pool
/// that was being built is to be thrown away.
#[derive(Debug, Clone, Copy, PartialEq, Eq, Structural)]
pub enum PoolError {
    /// Fewer bytes are left at `offset` than `reading` takes.
    UnexpectedEnd { reading: Field, offset: usize },
    /// The bytes from `start` up to `end` are not modified UTF-8.
    MalformedUtf8 { start: usize, end: usize },
    /// The byte at `offset` is not the tag of any entry kind.
    UnknownTag { tag: u8, offset: usize },
    /// The byte at `offset` is not the code of any access mode.
    UnknownReferenceKind { code: u8, offset: usize },
    /// The entry at `index` refers to itself.
    SelfReference { index: usize },
    /// The entry at `index` refers to `target`, which is past the end.
    OutOfBoundsReference { index: usize, target: usize },
    /// A scan linked nothing more, and some reference is still a raw index.
    Unresolvable,
    /// A reference points to an entry of a kind that is not allowed there.
    /// The caller knows which reference it asked about.
    UnexpectedType,
    /// An index read from the bytes is past the end of the pool.
    /// The caller knows what the index was read for.
    IndexOutOfBounds { index: usize },
    /// A reference of the entry at `index` points to an entry of a kind
    /// that is not allowed there.
    TypeMismatch { index: usize },
}

/// The text of one decimal digit.
pub open spec fn digit_text(digit: nat) -> Seq<char> {
    if digit == 0 {
        "0"@
    } else if digit == 1 {
        "1"@
    } else if digit == 2 {
        "2"@
    } else if digit == 3 {
        "3"@
    } else if digit == 4 {
        "4"@
    } else if digit == 5 {
        "5"@
    } else if digit == 6 {
        "6"@
    } else if digit == 7 {
        "7"@
    } else if digit == 8 {
        "8"@
    } else {
        "9"@
    }
}

/// A number written in decimal, without leading zeros.
pub open spec fn decimal_text(n: nat) -> Seq<char>
    decreases n,
{
    if n < 10 {
        digit_text(n)
    } else {
        decimal_text(n / 10) + digit_text(n % 10)
    }
}

fn digit_str(digit: usize) -> (text: &'static str)
    requires
        digit < 10,
    ensures
        text@ == digit_text(digit as nat),
{
    match digit {
        0 => "0",
        1 => "1",
        2 => "2",
        3 => "3",
        4 => "4",
        5 => "5",
        6 => "6",
        7 => "7",
        8 => "8",
        _ => "9",
    }
}

/// Appends `n`, written in decimal, to `text`.
pub fn push_decimal(text: &mut String, n: usize)
    ensures
        final(text)@ == old(text)@ + decimal_text(n as nat),
    decreases n,
{
    if n >= 10 {
        push_decimal(text, n / 10);
        text.append(digit_str(n % 10));
    } else {
        text.append(digit_str(n));
    }
}

impl Field {
    /// The name of the field in a report.
    pub open spec fn name(self) -> Seq<char> {
        match self {
            Field::U1 => "u1"@,
            Field::U2 => "u2"@,
            Field::U4 => "u4"@,
            Field::U8 => "u8"@,
            Field::Utf8 => "CONSTANT_Utf8"@,
        }
    }

    fn name_str(self) -> (text: &'static str)
        ensures
            text@ == self.name(),
    {
        match self {
            Field::U1 => "u1",
            Field::U2 => "u2",
            Field::U4 => "u4",
            Field::U8 => "u8",
            Field::Utf8 => "CONSTANT_Utf8",
        }
    }
}

impl PoolError {
    /// The report of this failure, as a sequence of characters.
    pub open spec fn text(self) -> Seq<char> {
        match self {
            PoolError::UnexpectedEnd { reading, offset } => "Unexpected end of stream reading "@
                + reading.name() + " at index "@ + decimal_text(offset as nat),
            PoolError::MalformedUtf8 { start, end } => "Error reading CONSTANT_Utf8 at indices "@
                + decimal_text(start as nat) + ".."@ + decimal_text(end as nat)
                + ": could not convert CESU-8 data to UTF-8"@,
            PoolError::UnknownTag { tag, offset } => "Unexpected constant pool entry type "@
                + decimal_text(tag as nat) + " at index "@ + decimal_text(offset as nat),
            PoolError::UnknownReferenceKind { code, offset } => "Unexpected reference kind "@
                + decimal_text(code as nat) + " when reading CONSTANT_methodhandle at index "@
                + decimal_text(offset as nat),
            PoolError::SelfReference { index } => "Constant pool entry at index "@ + decimal_text(
                index as nat,
            ) + " could not be resolved due to self-reference"@,
            PoolError::OutOfBoundsReference { index, target } => "Constant pool entry at index "@
                + decimal_text(index as nat) + " references out-of-bounds index "@ + decimal_text(
                target as nat,
            ),
            PoolError::Unresolvable => "Unable to resolve all constant pool entries"@,
            PoolError::UnexpectedType => "Unexpected constant pool reference type for"@,
            PoolError::IndexOutOfBounds { index } => "Out-of-bounds index "@ + decimal_text(
                index as nat,
            ) + " in constant pool reference for"@,
            PoolError::TypeMismatch { index } => "Unexpected constant pool reference type for"@
                + " constant pool entry "@ + decimal_text(index as nat),
        }
    }

    /// Writes the report of this failure.
    pub fn message(&self) -> (report: String)
        ensures
            report@ == self.text(),
    {
        match *self {
            PoolError::UnexpectedEnd { reading, offset } => {
                let mut report = String::from_str("Unexpected end of stream reading ");
                report.append(reading.name_str());
                report.append(" at index ");
                push_decimal(&mut report, offset);
                report
            },
            PoolError::MalformedUtf8 { start, end } => {
                let mut report = String::from_str("Error reading CONSTANT_Utf8 at indices ");
                push_decimal(&mut report, start);
                report.append("..");
                push_decimal(&mut report, end);
                report.append(": could not convert CESU-8 data to UTF-8");
                report
            },
            PoolError::UnknownTag { tag, offset } => {
                let mut report = String::from_str("Unexpected constant pool entry type ");
                push_decimal(&mut report, tag as usize);
                report.append(" at index ");
                push_decimal(&mut report, offset);
                report
            },
            PoolError::UnknownReferenceKind { code, offset } => {
                let mut report = String::from_str("Unexpected reference kind ");
                push_decimal(&mut report, code as usize);
                report.append(" when reading CONSTANT_methodhandle at index ");
                push_decimal(&mut report, offset);
                report
            },
            PoolError::SelfReference { index } => {
                let mut report = String::from_str("Constant pool entry at index ");
                push_decimal(&mut report, index);
                report.append(" could not be resolved due to self-reference");
                report
            },
            PoolError::OutOfBoundsReference { index, target } => {
                let mut report = String::from_str("Constant pool entry at index ");
                push_decimal(&mut report, index);
                report.append(" references out-of-bounds index ");
                push_decimal(&mut report, target);
                report
            },
            PoolError::Unresolvable => String::from_str(
                "Unable to resolve all constant pool entries",
            ),
            PoolError::UnexpectedType => String::from_str(
                "Unexpected constant pool reference type for",
            ),
            PoolError::IndexOutOfBounds { index } => {
                let mut report = String::from_str("Out-of-bounds index ");
                push_decimal(&mut report, index);
                report.append(" in constant pool reference for");
                report
            },
            PoolError::TypeMismatch { index } => {
                let mut report = String::from_str("Unexpected constant pool reference type for");
                report.append(" constant pool entry ");
                push_decimal(&mut report, index);
                report
            },
        }
    }
}

} // verus!
