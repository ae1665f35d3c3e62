//! A fixed-memory spatial hash grid for broad-phase overlap queries over
//! axis-aligned rectangles.
//!
//! Memory is set aside once, when a [`Grid`] is made. Rectangles are quantized
//! to square cells; each cell hashes to a slot of a direct-mapped [`Table`]
//! that holds a bounded bucket of entity identifiers. A query returns the
//! identifiers found in the cells that its region covers: candidates for an
//! exact overlap test, which is the caller's to make.

pub mod bucket;
pub mod counting;
pub mod effects;
pub mod entries;
pub mod error;
pub mod geometry;
pub mod grid;
pub mod hashing;
pub mod laws;
pub mod model;
pub mod table;

pub use crate::bucket::FIXED_SIZE;
pub use crate::error::{CapacityExceeded, NotFound};
pub use crate::geometry::{CellSpan, Entity, Query};
pub use crate::grid::Grid;
pub use crate::model::GridView;
pub use crate::table::Table;
