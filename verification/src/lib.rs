//! A mosaic image filter.
//!
//! The filter partitions a pixel grid into fixed-size square sectors,
//! computes the truncated mean color of each full sector, and re-renders
//! a grid of the same dimensions in which every pixel of a full sector
//! carries its sector's mean color. In `Circle` mode a pixel further from
//! its sector's center than half the sector size is rendered as the
//! transparent background color instead. Pixels of a trailing partial
//! row or column belong to no full sector and always render as the
//! background color.

pub mod grid;
pub mod laws;
pub mod render;
pub mod sector;
pub mod types;
