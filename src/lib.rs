//! The processing core of a disk-image forensics workbench: partition
//! geometry and parser dispatch, the flattening of walked filesystem trees
//! into storable rows, and the decisions of a processing run over the
//! partitions of one piece of evidence, with the progress events it hands
//! to its observer.

pub mod catalog;
pub mod geometry;
pub mod orchestrator;
pub mod progress;
pub mod tree;
