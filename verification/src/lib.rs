//! Hexagonal axial-coordinate math and an infinite-scrolling tile buffer.
//!
//! The crate has two parts. `coords` and `cartesian` give a pure axial
//! coordinate system for a pointy-top, row-offset hexagonal lattice:
//! component-wise arithmetic, the six adjacency directions, an exact
//! fixed-point transform between the lattice and pixel space, and rounding
//! of fractional axial positions to the nearest hex. `buffer` and `sky`
//! build on that a fixed-size tile window that scrolls forever: each tick
//! accumulates sub-tile motion, and whole-tile crossings shift the stored
//! texture variants across the window while freshly randomized variants
//! enter at the trailing edge.

mod buffer;
mod cartesian;
mod coords;
mod rng;
mod sky;

pub use buffer::adj_x;
pub use buffer::adj_y;
pub use buffer::BufferError;
pub use buffer::TileBuffer;
pub use buffer::DIM_MAX;
pub use cartesian::abs_int;
pub use cartesian::lemma_cartesian_round_trip;
pub use cartesian::lemma_from_cartesian_exact;
pub use cartesian::lemma_invert_x_mirrors_cartesian;
pub use cartesian::lemma_invert_y_mirrors_cartesian;
pub use cartesian::lemma_opposite_negates_cartesian;
pub use cartesian::lemma_round_axial_exact;
pub use cartesian::round_half_up;
pub use cartesian::spec_round_axial;
pub use cartesian::FracAxial;
pub use cartesian::GeometryError;
pub use cartesian::HexGeometry;
pub use cartesian::PixelVec;
pub use cartesian::FRAC_DEN_MAX;
pub use cartesian::FRAC_NUM_MAX;
pub use cartesian::GEOM_MAX;
pub use cartesian::ROUND_LIMIT;
pub use coords::lemma_invert_x_involution;
pub use coords::lemma_invert_y_involution;
pub use coords::lemma_neighbor_opposite_cancels;
pub use coords::lemma_offsets_distinct;
pub use coords::Axial;
pub use coords::Direction;
pub use sky::disp_x_sub;
pub use sky::disp_y_sub;
pub use sky::lemma_trunc_div_rem;
pub use sky::lemma_zero_speed_tick_is_noop;
pub use sky::trunc_div;
pub use sky::trunc_rem;
pub use sky::ScrollState;
pub use sky::DT_MAX_MICROS;
pub use sky::SPEED_MAX_MILLI;
pub use sky::SUBPIXELS;
