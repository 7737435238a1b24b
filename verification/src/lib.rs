//! Marching squares over a rectangular field of on/off samples.
//!
//! A [`SampleGrid`](grid::SampleGrid) holds the boolean state of every lattice
//! point.  Each 2x2 neighbourhood of samples is a [`Cell`](cell::Cell); its four
//! corner states pack into a configuration code between 0 and 15, and a fixed
//! table maps that code to the line segments that separate the "on" corners
//! from the "off" corners.  Segment endpoints always sit on the midpoints of
//! cell edges.
//!
//! All coordinates are integers.  Lattice coordinates are `i32`; the endpoints
//! of segments are given in *half world units* (twice the world coordinate), so
//! that the midpoint of an edge is exact for every tile size.

pub mod error;
pub mod cell;
pub mod contour;
pub mod grid;
pub mod source;
pub mod sweep;

pub use crate::cell::{Cell, Edge, Sample};
pub use crate::contour::{crossings, midpoint, segments_for, segments_for_code, Crossing, Point, Segment};
pub use crate::error::ContourError;
pub use crate::grid::SampleGrid;
pub use crate::source::{random_sample, seed_key, seeded_draw, seeded_state, state_of_draw};
pub use crate::sweep::{extract, CellContour};
