//! Merging of `key = value` field lists into the `fields(...)` group of an
//! instrumentation attribute's argument text.
//!
//! The library locates a balanced `fields(...)` group inside a flat argument
//! string, relocates required `name = value` attributes into it under a
//! renamed key, and joins field lists with `", "` separators that are only
//! emitted between two non-empty parts.

pub mod attr;
pub mod laws;
pub mod model;

pub use attr::{extend_fields, extract_fields, extract_required_attributes, ExtendError};
