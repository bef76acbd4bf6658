//! Decoding the text of an entry. The text is modified UTF-8: a zero is
//! written in two bytes, and a character outside the basic plane as a
//! pair of surrogates of three bytes each. The decoder is that of the
//! `cesu8` crate.

use crate::entry::ConstantPoolEntry;
use crate::error::PoolError;
use std::borrow::Cow;
use vstd::prelude::*;

verus! {

/// The error type of `cesu8`. It is a value without content.
#[verifier::external_type_specification]
#[verifier::external_body]
pub struct ExCesu8DecodingError(cesu8::Cesu8DecodingError);

/// What `cesu8::from_java_cesu8` makes of `bytes`: the text that it
/// decodes them to, or `None` where it returns its error.
pub uninterp spec fn java_cesu8_text(bytes: Seq<u8>) -> Option<Seq<char>>;

/// `cesu8::from_java_cesu8` decodes modified UTF-8. Where the bytes are
/// plain UTF-8 already it hands them back as they are, borrowed; else it
/// decodes them into a string of its own.
///
/// Not proved: that the outcome is [`java_cesu8_text`] of the bytes. That
/// is to say no more than that the decoder returns the same for the same
/// bytes. It reads nothing else, and it returns on every input.
pub assume_specification[ cesu8::from_java_cesu8 ](bytes: &[u8]) -> (decoded: Result<
    Cow<str>,
    cesu8::Cesu8DecodingError,
>)
    ensures
        match decoded {
            Ok(text) => java_cesu8_text(bytes@) == Some(text@),
            Err(_) => java_cesu8_text(bytes@) is None,
        },
;

/// Makes the text entry, or the failure, out of what the decoder returned
/// for the bytes from `start` up to `end`.
pub fn utf8_entry<'a>(
    decoded: Result<Cow<'a, str>, cesu8::Cesu8DecodingError>,
    start: usize,
    end: usize,
) -> (entry: Result<ConstantPoolEntry<Cow<'a, str>>, PoolError>)
    ensures
        match decoded {
            Ok(text) => entry == Ok::<ConstantPoolEntry<Cow<'a, str>>, PoolError>(
                ConstantPoolEntry::Utf8(text),
            ),
            Err(_) => entry == Err::<ConstantPoolEntry<Cow<'a, str>>, PoolError>(
                PoolError::MalformedUtf8 { start, end },
            ),
        },
{
    match decoded {
        Ok(text) => Ok(ConstantPoolEntry::Utf8(text)),
        Err(_) => Err(PoolError::MalformedUtf8 { start, end }),
    }
}

} // verus!
