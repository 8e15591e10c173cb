//! Appends contract metadata to a compiled WebAssembly module as custom sections.
//!
//! The module bytes are treated as opaque: each custom section is appended
//! after the existing bytes, which are never modified.
pub mod section;
pub mod xdr;
pub mod meta;
pub mod decode;
