//! Multi-level range index over the distinct values of a faceted field.
//!
//! Given the base level of sorted (value, document-id-bitmap) entries of a
//! field, the library groups adjacent entries into larger and larger ranges,
//! computing the union of the document bitmaps at each level, so that range
//! queries over N distinct facet values take O(log N) bitmap lookups.
//!
//! The surrounding store is kept by the caller: the library works on plain
//! sorted rows handed in, and returns the level entries to persist.

pub mod bitmap;
pub mod builder;
pub mod entries;
pub mod facets;
pub mod field_levels;
pub mod laws;
pub mod planner;
