//! Game logic of a small voxel adventure game: counters that drive animations,
//! grid directions, block types and chunking, level layouts and per-tick rules.
pub mod components;
pub mod voxels;
pub mod setup;
pub mod update;
pub mod assetstuff;
pub mod jumpy_penguin;
pub mod ui;
