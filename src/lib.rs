//! Core of a frame renderer: the pipeline cache with its creation state
//! machine, the layout caches, the phase items with their sorting, binning
//! and batching, the per-view phase containers, the draw-function registry,
//! the decisions of the 2D main passes, camera ordering, and adapter
//! details. Device work (shader compilation, GPU object creation, command
//! recording) is left to the caller, which hands back its outcomes.

pub mod adapter;
pub mod camera;
pub mod draw;
pub mod layout_cache;
pub mod passes;
pub mod phase;
pub mod pipeline_cache;
pub mod schedule;
pub mod view_phases;
