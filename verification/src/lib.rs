//! Validated text buffers over a family of character encodings.
//!
//! Element buffers (bytes, 16-bit code units, or scalar values) are
//! validated once against an encoding policy and wrapped in types whose
//! invariant guarantees well-formedness; slicing re-validates cheaply at
//! the cut points instead of re-scanning.
pub mod array_str;
pub mod cstr;
pub mod cstring;
pub mod pattern;
pub mod str;
pub mod string;
pub mod traits;
pub mod utf;
pub mod utf16;
pub mod utf8;

pub use traits::Char;
pub use traits::CharTraits;
pub use traits::DecodeRev;
pub use traits::IntoChars;
pub use traits::ValidationError;
