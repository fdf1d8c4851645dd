//! A verified quadtree: a 2D spatial index over integer coordinates.
//!
//! Points are inserted into a bounded plane and retrieved by axis-aligned
//! rectangular range queries. The tree subdivides a region lazily, once a
//! leaf's buffer outgrows its capacity, and range search prunes whole
//! subtrees whose region does not meet the query rectangle.

pub mod geometry;
pub mod laws;
pub mod scan;
pub mod tree;
