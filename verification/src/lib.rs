//! A verified Conway's Game of Life engine.
//!
//! The crate holds the grid data model, the Moore-neighbourhood query, the
//! rule evaluation with its scratch-grid double buffering, the mapping from
//! pointer coordinates to grid cells, and the rasterisation of a grid into a
//! packed RGBA8 framebuffer. The windowing shell around it only polls input,
//! paces ticks, and presents the framebuffer.

pub mod cell;
pub mod controller;
pub mod grid;
pub mod schedule;
