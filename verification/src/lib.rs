//! Incremental sampling of points in a resizable rectangle, with dirty-index
//! tracking and per-tick update batches.

pub mod batch;
pub mod codec;
pub mod dirty;
pub mod growth;
pub mod hexfloat;
pub mod random;
pub mod region;
