//! Decoding, linking and checking of the constant pool of a class file.
//!
//! The pool is an indexed table of typed entries. Entries refer to one
//! another by index, in either direction, so a pool is first decoded with
//! every reference left as a raw index, then linked by repeated scans until
//! nothing changes, and finally checked against the table of entry kinds
//! that each reference may point to.

pub mod alike;
pub mod cursor;
pub mod decode;
pub mod entry;
pub mod error;
pub mod kinds;
pub mod laws;
pub mod pool;
pub mod resolve;
pub mod text;
pub mod validate;

pub use entry::{BootstrapMethodRef, ConstantPoolEntry, ConstantPoolRef};
pub use error::{Field, PoolError};
pub use kinds::{ConstantPoolEntryTypes, EntryKind, ReferenceKind};
pub use decode::decode_constant_pool;
pub use pool::{read_constant_pool, read_cp_ref};
pub use resolve::resolve_constant_pool;
pub use validate::{is_fully_linked, validate_constant_pool};
