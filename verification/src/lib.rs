//! A hierarchical task store with a typed query/mutation surface.
//!
//! Tasks form a forest: each task carries a title, an optional description,
//! and an optional reference to its parent. The store keeps the rows in
//! insertion order; the surface translates textual identifiers into the
//! internal 128-bit form and store results into typed responses or errors.

pub mod ids;
pub mod schema;
pub mod task;
